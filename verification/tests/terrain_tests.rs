use termscape::cell::{Color, Element};
use termscape::surface::Surface;
use termscape::terrain::{
    classify, falloff, generate_heightmap, paint_sample, sample_positions, Band, NOISE_UNIT,
};
use termscape::vec::Vec2;

fn whole() -> termscape::terrain::Falloff {
    falloff(Vec2::new(10, 10), Vec2::new(5, 5)).unwrap()
}

#[test]
fn bands_rank_from_low_to_high() {
    assert_eq!(Band::Water.rank(), 0);
    assert_eq!(Band::Sand.rank(), 1);
    assert_eq!(Band::Forest.rank(), 2);
    assert_eq!(Band::Mountain.rank(), 3);
}

#[test]
fn bands_have_their_colours() {
    assert_eq!(
        Band::Water.cell(),
        Element { value: ' ', background: Color::Rgb { r: 0, g: 105, b: 148 } }
    );
    assert_eq!(
        Band::Sand.cell(),
        Element { value: ' ', background: Color::Rgb { r: 194, g: 174, b: 128 } }
    );
    assert_eq!(
        Band::Forest.cell(),
        Element { value: ' ', background: Color::Rgb { r: 2, g: 48, b: 32 } }
    );
    assert_eq!(Band::Mountain.cell(), Element { value: ' ', background: Color::White });
}

#[test]
fn falloff_is_one_at_the_centre() {
    let f = whole();
    assert_eq!(f.num(), 1000);
    assert_eq!(f.den(), 1000);
}

#[test]
fn falloff_is_exact() {
    let f = falloff(Vec2::new(10, 10), Vec2::new(1, 1)).unwrap();
    assert_eq!((f.num(), f.den()), (296, 1000));
    let g = falloff(Vec2::new(20, 10), Vec2::new(0, 5)).unwrap();
    assert_eq!((g.num(), g.den()), (600, 1000));
    let h = falloff(Vec2::new(20, 10), Vec2::new(10, 0)).unwrap();
    assert_eq!((h.num(), h.den()), (0, 1000));
    let i = falloff(Vec2::new(5, 3), Vec2::new(3, 2)).unwrap();
    assert_eq!((i.num(), i.den()), (79, 90));
}

#[test]
fn falloff_is_negative_in_the_corners() {
    let f = falloff(Vec2::new(10, 10), Vec2::new(0, 0)).unwrap();
    assert_eq!((f.num(), f.den()), (-100, 1000));
}

#[test]
fn falloff_stretches_along_x() {
    let along_x = falloff(Vec2::new(20, 20), Vec2::new(5, 10)).unwrap();
    let along_y = falloff(Vec2::new(20, 20), Vec2::new(10, 5)).unwrap();
    assert_eq!((along_x.num(), along_x.den()), (3900, 4000));
    assert_eq!((along_y.num(), along_y.den()), (3000, 4000));
}

#[test]
fn falloff_of_a_canvas_without_cells_is_undefined() {
    assert!(falloff(Vec2::new(0, 10), Vec2::new(0, 0)).is_none());
    assert!(falloff(Vec2::new(10, 0), Vec2::new(0, 0)).is_none());
    assert!(falloff(Vec2::new(-4, -4), Vec2::new(0, 0)).is_none());
}

#[test]
fn falloff_at_the_ends_of_the_range() {
    let f = falloff(Vec2::new(32767, 32767), Vec2::new(-32768, -32768)).unwrap();
    assert_eq!(f.den(), 10 * 32767 * 32767);
    assert_eq!(f.num(), 10 * 32767i64 * 32767 - 11 * 98303i64 * 98303);
    assert_eq!(classify(i32::MAX, f), Band::Water);
    assert_eq!(classify(i32::MIN, f), Band::Mountain);
}

#[test]
fn bands_change_at_their_thresholds() {
    let f = whole();
    assert_eq!(classify(0, f), Band::Water);
    assert_eq!(classify(299_999, f), Band::Water);
    assert_eq!(classify(300_000, f), Band::Sand);
    assert_eq!(classify(399_999, f), Band::Sand);
    assert_eq!(classify(400_000, f), Band::Forest);
    assert_eq!(classify(549_999, f), Band::Forest);
    assert_eq!(classify(550_000, f), Band::Mountain);
    assert_eq!(classify(NOISE_UNIT, f), Band::Mountain);
    assert_eq!(classify(-1, f), Band::Water);
}

#[test]
fn falloff_scales_the_noise() {
    let f = falloff(Vec2::new(10, 10), Vec2::new(1, 1)).unwrap();
    assert_eq!(classify(1_000_000, f), Band::Water);
    assert_eq!(classify(1_013_513, f), Band::Water);
    assert_eq!(classify(1_013_514, f), Band::Sand);
}

#[test]
fn more_noise_never_gives_a_lower_band() {
    for pos in [Vec2::new(5, 5), Vec2::new(1, 1), Vec2::new(3, 6), Vec2::new(5, 0)] {
        let f = falloff(Vec2::new(10, 10), pos).unwrap();
        assert!(f.num() >= 0);
        let mut last = 0;
        let mut noise = -500_000;
        while noise <= 2_500_000 {
            let rank = classify(noise, f).rank();
            assert!(rank >= last);
            last = rank;
            noise += 1_000;
        }
    }
}

#[test]
fn under_a_negative_falloff_the_order_turns() {
    let f = falloff(Vec2::new(10, 10), Vec2::new(0, 0)).unwrap();
    assert_eq!(classify(-5_000_000, f), Band::Forest);
    assert_eq!(classify(0, f), Band::Water);
}

#[test]
fn paint_sample_writes_two_cells() {
    let mut s = Surface::new(Vec2::new(4, 2));
    paint_sample(&mut s, Vec2::new(1, 1), Band::Sand);
    let sand = Band::Sand.cell();
    let b = Element::blank();
    assert_eq!(s.state(), &vec![b, b, b, b, b, sand, sand, b]);
}

#[test]
fn paint_sample_at_the_edge_writes_one_cell() {
    let mut s = Surface::new(Vec2::new(2, 1));
    paint_sample(&mut s, Vec2::new(1, 0), Band::Forest);
    assert_eq!(s.state(), &vec![Element::blank(), Band::Forest.cell()]);
    paint_sample(&mut s, Vec2::new(-1, 0), Band::Water);
    assert_eq!(s.state(), &vec![Band::Water.cell(), Band::Forest.cell()]);
    paint_sample(&mut s, Vec2::new(32767, 0), Band::Water);
    assert_eq!(s.state(), &vec![Band::Water.cell(), Band::Forest.cell()]);
}

#[test]
fn samples_run_down_every_second_column() {
    assert_eq!(
        sample_positions(Vec2::new(5, 3)),
        vec![Vec2::new(1, 1), Vec2::new(1, 2), Vec2::new(3, 1), Vec2::new(3, 2)]
    );
    assert_eq!(
        sample_positions(Vec2::new(4, 2)),
        vec![Vec2::new(1, 1), Vec2::new(3, 1)]
    );
    assert_eq!(sample_positions(Vec2::new(2, 2)), vec![Vec2::new(1, 1)]);
    assert_eq!(sample_positions(Vec2::new(80, 24)).len(), 40 * 23);
}

#[test]
fn small_canvases_have_no_samples() {
    for size in [Vec2::new(1, 5), Vec2::new(5, 1), Vec2::new(0, 0), Vec2::new(-3, 9)] {
        assert!(sample_positions(size).is_empty());
    }
}

#[test]
fn heightmap_paints_each_sample_twice_over() {
    let mut s = Surface::new(Vec2::new(5, 3));
    generate_heightmap(&mut s, &vec![1_000_000, 400_000, 600_000, 0]);
    let b = Element::blank();
    let m = Band::Mountain.cell();
    let a = Band::Sand.cell();
    let f = Band::Forest.cell();
    let w = Band::Water.cell();
    assert_eq!(s.state(), &vec![b, b, b, b, b, b, m, m, f, f, b, a, a, w, w]);
}

#[test]
fn heightmap_stops_where_the_noise_ends() {
    let mut s = Surface::new(Vec2::new(5, 3));
    generate_heightmap(&mut s, &vec![1_000_000]);
    let b = Element::blank();
    let m = Band::Mountain.cell();
    assert_eq!(s.state(), &vec![b, b, b, b, b, b, m, m, b, b, b, b, b, b, b]);
    let mut t = Surface::new(Vec2::new(5, 3));
    generate_heightmap(&mut t, &Vec::new());
    assert!(t.state().iter().all(|e| *e == b));
}

#[test]
fn heightmap_ignores_noise_beyond_the_last_sample() {
    let mut s = Surface::new(Vec2::new(4, 2));
    generate_heightmap(&mut s, &vec![0, 0, 900_000, 900_000]);
    let b = Element::blank();
    let w = Band::Water.cell();
    assert_eq!(s.state(), &vec![b, b, b, b, b, w, w, w]);
}

#[test]
fn heightmap_leaves_small_canvases_alone() {
    for size in [Vec2::new(1, 4), Vec2::new(4, 1), Vec2::new(0, 0)] {
        let mut s = Surface::new(size);
        generate_heightmap(&mut s, &vec![900_000; 8]);
        assert!(s.state().iter().all(|e| *e == Element::blank()));
    }
}

#[test]
fn heightmap_follows_the_sample_positions() {
    let size = Vec2::new(9, 6);
    let places = sample_positions(size);
    let noise: Vec<i32> = (0..places.len() as i32).map(|k| k * 50_000).collect();
    let mut s = Surface::new(size);
    generate_heightmap(&mut s, &noise);
    for (k, place) in places.iter().enumerate() {
        let cell = classify(noise[k], falloff(size, *place).unwrap()).cell();
        assert_eq!(s.elem(*place), Some(&cell));
        if place.x + 1 < size.x {
            assert_eq!(s.elem(Vec2::new(place.x as i64 + 1, place.y as i64)), Some(&cell));
        }
    }
    for x in 0..9 {
        assert_eq!(s.elem(Vec2::new(x, 0)), Some(&Element::blank()));
    }
    for y in 0..6 {
        assert_eq!(s.elem(Vec2::new(0, y)), Some(&Element::blank()));
    }
}
