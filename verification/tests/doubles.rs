use hyprdisjust::hyprland::monitor::{normalize_monitors, RawHyprMonitor};
use hyprdisjust::number::{parse_rate, Decimal, Rate};
use hyprdisjust::profile::plan::plan_apply;
use hyprdisjust::profile::store::{Profile, ProfileOutput};
use hyprdisjust::profile::validation::has_whole_pixels;
use hyprdisjust::tui::geometry::{output_rect, CanvasTransform, CellRect};

fn decimal(text: &str) -> Decimal {
    match parse_rate(text) {
        Some(Rate::Finite(number)) => number,
        other => panic!("{text} is read as {other:?}"),
    }
}

fn of(value: f64) -> Decimal {
    decimal(&value.to_string())
}

fn raw(name: &str, serial: &str) -> RawHyprMonitor {
    RawHyprMonitor {
        id: 0,
        name: name.to_owned(),
        description: format!("Maker {serial}"),
        make: "Maker".to_owned(),
        model: "Wide".to_owned(),
        serial: serial.to_owned(),
        width: 1920,
        height: 1080,
        physical_width: 600,
        physical_height: 340,
        refresh_rate: Decimal::whole(60),
        x: 0,
        y: 0,
        scale: Decimal::whole(1),
        transform: 0,
        disabled: false,
        available_modes: vec!["1920x1080@60.00Hz".to_owned()],
    }
}

fn output(width: i32, height: i32, scale: f64) -> ProfileOutput {
    ProfileOutput {
        monitor_id: "id".to_owned(),
        enabled: true,
        mode: format!("{width}x{height}"),
        x: 0,
        y: 0,
        scale: of(scale),
        transform: 0,
    }
}

const SCALES: [f64; 18] = [
    0.1,
    0.3,
    0.5,
    0.7,
    0.9,
    1.0,
    1.1,
    1.2000000000000002,
    1.25,
    1.3333333333333333,
    1.5,
    1.6,
    1.6666666666666667,
    1.75,
    2.0,
    2.4000000000000004,
    3.0,
    10.0,
];

#[test]
fn numbers_are_read_and_written_as_doubles() {
    for text in [
        "0",
        "1",
        "60",
        "59.951",
        "59.95100000000000001",
        "59.950000000000000000000001",
        "1.20000000000000017763568394002504646778106689453125",
        "0.1",
        "0.30000000000000004",
        "0.333333333333333333",
        "143.99899291992188",
        "239.76",
        "9007199254.740993",
        "9007199254.7409935",
        "1234567890.12345678",
        "10000000000",
        "0.125",
        "0.0078125",
        "1e9",
        "123456789e1",
        "-3.3000000000000003",
    ] {
        let double: f64 = text.parse().unwrap();
        let number = decimal(text);
        assert_eq!(number.text(), double.to_string(), "{text}");
        assert_eq!(decimal(&number.text()), number, "{text}");
        let short = if double.fract() == 0.0 {
            format!("{double:.0}")
        } else {
            let long = format!("{double:.3}");
            long.trim_end_matches('0').trim_end_matches('.').to_owned()
        };
        assert_eq!(number.short_text(), short, "{text}");
    }
    for (units, short) in [(62_500, "0.062"), (187_500, "0.188"), (1_000_500, "1")] {
        let number = Decimal::from_units(units * 1_000_000_000_000);
        let double = units as f64 / 1_000_000.0;
        assert_eq!(number.short_text(), short);
        let long = format!("{double:.3}");
        assert_eq!(short, long.trim_end_matches('0').trim_end_matches('.'));
    }
}

#[test]
fn tolerances_are_those_of_doubles() {
    let tolerance = of(0.001);
    assert!(!decimal("0.999").close_to(&decimal("1"), &tolerance));
    assert!(decimal("1.001").close_to(&decimal("1"), &tolerance) == (1.001_f64 - 1.0 <= 0.001));
    for scale in SCALES {
        for step in -20..=20 {
            let other = scale + f64::from(step) * 0.0001;
            for limit in [0.001, 0.0005, 0.2, 0.0] {
                assert_eq!(
                    of(other).close_to(&of(scale), &of(limit)),
                    (other - scale).abs() <= limit,
                    "{other} {scale} {limit}"
                );
            }
        }
    }
    for (a, b) in [(59.8, 60.0), (60.2, 60.0), (59.9, 60.1), (-0.1, 0.1), (1e10, 0.1), (0.2, 0.0)] {
        let near = (a - b as f64).abs() <= 0.2;
        assert_eq!(of(a).close_to(&of(b), &of(0.2)), near, "{a} {b}");
        assert_eq!(of(b).close_to(&of(a), &of(0.2)), near, "{b} {a}");
    }
}

#[test]
fn sums_are_those_of_doubles() {
    for scale in SCALES {
        let (mut number, mut double) = (of(scale), scale);
        for _ in 0..60 {
            number = number.plus(&of(0.1));
            double += 0.1;
            assert_eq!(number.text(), double.to_string());
        }
        for _ in 0..90 {
            number = number.plus(&of(-0.1));
            double += -0.1;
            if double.abs() > 0.05 {
                assert_eq!(number.text(), double.to_string());
            } else {
                (number, double) = (of(-1.5), -1.5);
            }
        }
    }
    assert_eq!(of(1e10).plus(&of(-0.1)).text(), (1e10_f64 - 0.1).to_string());
    assert_eq!(of(0.1).plus(&of(-0.1)), Decimal::from_units(0));
}

#[test]
fn edges_are_those_of_doubles() {
    let monitors = normalize_monitors(vec![raw("DP-1", "A1"), raw("DP-2", "B2")]);
    for scale in SCALES {
        let right = 1920.0 / scale;
        for x in [right.floor() - 1.0, right.floor(), right.ceil(), -right.floor(), -right.ceil()] {
            let mut profile = Profile::from_monitors(
                "desk".to_owned(),
                &monitors,
                "unix:1".to_owned(),
                "unix:1".to_owned(),
            );
            for output in &mut profile.outputs {
                output.mode = "1920x1080@60".to_owned();
                output.scale = of(scale);
            }
            profile.outputs[1].x = x as i32;
            let Ok(plan) = plan_apply(&profile, &monitors) else {
                continue;
            };
            let overlap = x < right && x + right > 0.0;
            assert_eq!(!plan.warnings.is_empty(), overlap, "{scale} {x}");
        }
    }
}

#[test]
fn sizes_are_those_of_doubles() {
    for scale in SCALES {
        for width in [1, 2, 3, 7, 640, 1079, 1080, 1366, 1920, 2560, 3440, 3840, 7680, 65536] {
            let exact = f64::from(width) / scale;
            assert_eq!(
                has_whole_pixels(width, of(scale)),
                (exact - exact.round()).abs() <= 0.01,
                "{width} {scale}"
            );
            let place = output_rect(&output(width, 1080, scale)).unwrap();
            assert_eq!(place.width, exact.round().max(1.0) as i32, "{width} {scale}");
        }
    }
}

#[test]
fn cells_are_those_of_doubles() {
    for (width, height) in [(1920, 1080), (1366, 768), (3440, 1440), (7, 5), (100, 1999)] {
        for (columns, rows) in [(72, 13), (3, 1), (7, 9), (51, 20), (300, 100)] {
            let area = CellRect {
                x: 2,
                y: 3,
                width: columns,
                height: rows,
            };
            let canvas = CanvasTransform::new(&vec![output(width, height, 1.0)], area);
            let padded = |length: i32| f64::from(length + 2 * (length / 20).max(80));
            let cell = f64::max(
                padded(width) / f64::from(columns),
                padded(height) / (f64::from(rows) * 2.0),
            )
            .max(1.0);
            for cells in -400..400 {
                assert_eq!(
                    canvas.cell_delta_to_logical(cells, cells),
                    (
                        (f64::from(cells) * cell).round() as i32,
                        (f64::from(cells) * (cell * 2.0)).round() as i32
                    )
                );
            }
            for pixels in 1..2500 {
                let mut rect = output_rect(&output(width, height, 1.0)).unwrap();
                rect.width = pixels;
                rect.height = pixels;
                let shown = canvas.to_cell_rect(rect);
                let wide = (f64::from(pixels) / cell).round().max(1.0) as u16;
                let high = (f64::from(pixels) / (cell * 2.0)).round().max(1.0) as u16;
                assert_eq!((shown.width, shown.height), (wide.min(columns), high.min(rows)));
            }
        }
    }
}
