use zuma_bot::curve::Curve;
use zuma_bot::curve_file::parse_curve;
use zuma_bot::decode::{
    decode_ball, decode_frog, f32_bits_to_fixed, number_to_color, number_to_effect, DecodeError,
};
use zuma_bot::geometry::{isqrt, Point};
use zuma_bot::model::{BallColor, BallEffect};

#[test]
fn distances_and_units() {
    let a = Point { x: 0, y: 0 };
    let b = Point { x: 300, y: 400 };
    assert_eq!(a.dist_sq(&b), 250000);
    assert_eq!(a.dist(&b), 500);
    assert_eq!(b.unit(), Point { x: 60, y: 80 });
    assert_eq!(Point { x: -300, y: 400 }.unit(), Point { x: -60, y: 80 });
    assert_eq!(a.unit(), a);
    assert_eq!(b.dot(&Point { x: 2, y: -1 }), 200);
    assert_eq!(b.add(b).sub(a).neg(), Point { x: -600, y: -800 });
    assert_eq!(isqrt(99), 9);
    assert_eq!(isqrt(100), 10);
}

#[test]
fn curve_lookups_clamp() {
    let mut curve = Curve::new();
    for i in 0..5 {
        curve.points.push(Point { x: i * 100, y: 0 });
        curve.is_tunnel.push(i == 2);
    }
    assert_eq!(curve.get_pos_at_dist(-50), Point { x: 0, y: 0 });
    assert_eq!(curve.get_pos_at_dist(299), Point { x: 200, y: 0 });
    assert_eq!(curve.get_pos_at_dist(10_000), Point { x: 400, y: 0 });
    assert!(curve.get_tunnel_at_dist(250));
    assert!(!curve.get_tunnel_at_dist(350));
    assert_eq!(curve.get_normal_at_dist(10_000), Point { x: 0, y: -100 });
}

#[test]
fn color_and_effect_codes() {
    assert_eq!(number_to_color(0), Ok(BallColor::Blue));
    assert_eq!(number_to_color(5), Ok(BallColor::White));
    assert_eq!(number_to_color(6), Err(DecodeError::UnknownColor(6)));
    assert_eq!(number_to_effect(0), Ok(BallEffect::Bomb));
    assert_eq!(number_to_effect(4), Ok(BallEffect::NoEffect));
    assert_eq!(number_to_effect(9), Err(DecodeError::UnknownEffect(9)));
}

#[test]
fn single_precision_to_fixed_point() {
    assert_eq!(f32_bits_to_fixed(1.5f32.to_bits()), Some(150));
    assert_eq!(f32_bits_to_fixed((-2.25f32).to_bits()), Some(-225));
    assert_eq!(f32_bits_to_fixed(320.017f32.to_bits()), Some(32001));
    assert_eq!(f32_bits_to_fixed(0.001f32.to_bits()), Some(0));
    assert_eq!(f32_bits_to_fixed(0.0f32.to_bits()), Some(0));
    assert_eq!(f32_bits_to_fixed(16777216.0f32.to_bits()), Some(1677721600));
    assert_eq!(f32_bits_to_fixed(f32::NAN.to_bits()), None);
    assert_eq!(f32_bits_to_fixed(f32::INFINITY.to_bits()), None);
    assert_eq!(f32_bits_to_fixed(1.0e20f32.to_bits()), None);
}

#[test]
fn tokens_and_shooter_from_raw_values() {
    let b = decode_ball(7, 2, 4, 10.5f32.to_bits(), 20.0f32.to_bits(), 300.0f32.to_bits()).unwrap();
    assert_eq!(b.id, 7);
    assert_eq!(b.color, BallColor::Red);
    assert_eq!(b.effect, BallEffect::NoEffect);
    assert_eq!(b.coordinates, Point { x: 1050, y: 2000 });
    assert_eq!(b.distance_along_path, 30000);
    assert_eq!(decode_ball(7, 9, 4, 0, 0, 0), Err(DecodeError::UnknownColor(9)));
    assert_eq!(decode_ball(7, 1, 8, 0, 0, 0), Err(DecodeError::UnknownEffect(8)));
    let nan = f32::NAN.to_bits();
    assert_eq!(decode_ball(7, 1, 1, nan, 0, 0), Err(DecodeError::OutOfRange(nan)));
    let f = decode_frog(320, 240, b, b, 12.5f32.to_bits()).unwrap();
    assert_eq!(f.location, Point { x: 32000, y: 24000 });
    assert_eq!(f.ball_exit_speed, 1250);
    assert_eq!(decode_frog(320, 240, b, b, 0.0f32.to_bits()).is_err(), true);
}

fn curve_bytes(magic: &[u8; 4], steps: &[(i8, i8, u8)]) -> Vec<u8> {
    let mut b = Vec::new();
    b.extend_from_slice(magic);
    b.extend_from_slice(&0i32.to_le_bytes());
    b.extend_from_slice(&0i32.to_le_bytes());
    b.extend_from_slice(&0u32.to_le_bytes());
    // One absolute point, kept for its size only.
    b.extend_from_slice(&1u32.to_le_bytes());
    b.extend_from_slice(&5u32.to_le_bytes());
    b.extend_from_slice(&6u32.to_le_bytes());
    b.extend_from_slice(&[0, 0]);
    b.extend_from_slice(&((steps.len() + 1) as u32).to_le_bytes());
    b.extend_from_slice(&1.0f32.to_le_bytes());
    b.extend_from_slice(&2.0f32.to_le_bytes());
    b.extend_from_slice(&[0, 0]);
    for &(dx, dy, t) in steps {
        b.extend_from_slice(&[dx as u8, dy as u8, t, 0]);
    }
    b
}

#[test]
fn curve_resource_decodes() {
    let bytes = curve_bytes(b"CURV", &[(100, 0, 0), (-60, 80, 1)]);
    let (points, tunnels) = parse_curve(&bytes).unwrap();
    assert_eq!(points, vec![Point { x: 200, y: 200 }, Point { x: 140, y: 280 }]);
    assert_eq!(tunnels, vec![false, true]);

    let mut curve = Curve::new();
    assert_eq!(curve.load_from_bytes("level1".to_string(), &bytes), Some(()));
    assert!(curve.is_loaded_from(&"level1".to_string()));
    assert_eq!(curve.points.len(), 2);

    let bad = curve_bytes(b"CURX", &[(100, 0, 0)]);
    assert!(parse_curve(&bad).is_none());
    assert_eq!(curve.load_from_bytes("level2".to_string(), &bad), None);
    assert!(curve.is_loaded_from(&"level1".to_string()));
    assert_eq!(curve.points.len(), 2);

    let truncated = &bytes[..bytes.len() - 1];
    assert!(parse_curve(truncated).is_none());
}
