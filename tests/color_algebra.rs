use rendezvous::color::{complement_color, Color};
use rendezvous::color::Color::{Blue, Red, Yellow};
use rendezvous::report::wordy_num;

#[test]
fn complement_table() {
    let cases = [
        (Red, Red, Red),
        (Red, Yellow, Blue),
        (Red, Blue, Yellow),
        (Yellow, Red, Blue),
        (Yellow, Yellow, Yellow),
        (Yellow, Blue, Red),
        (Blue, Red, Yellow),
        (Blue, Yellow, Red),
        (Blue, Blue, Blue),
    ];
    for (a, b, want) in cases {
        assert_eq!(complement_color(a, b), want);
    }
}

#[test]
fn complement_is_deterministic() {
    let colors = [Color::Red, Color::Yellow, Color::Blue];
    let mut expected = Vec::new();
    for a in colors {
        for b in colors {
            expected.push(complement_color(a, b));
        }
    }
    for _ in 0..1000 {
        let mut got = Vec::new();
        for a in colors {
            for b in colors {
                got.push(complement_color(a, b));
            }
        }
        assert_eq!(got, expected);
    }
}

#[test]
fn complement_is_symmetric() {
    let colors = [Color::Red, Color::Yellow, Color::Blue];
    for a in colors {
        for b in colors {
            assert_eq!(complement_color(a, b), complement_color(b, a));
        }
    }
}

#[test]
fn color_names() {
    assert_eq!(Color::Red.show(), "red");
    assert_eq!(Color::Yellow.show(), "yellow");
    assert_eq!(Color::Blue.show(), "blue");
}

#[test]
fn wordy_numbers() {
    assert_eq!(wordy_num(0), " zero");
    assert_eq!(wordy_num(7), " seven");
    assert_eq!(wordy_num(12), " one two");
    assert_eq!(wordy_num(1200), " one two zero zero");
    assert_eq!(wordy_num(9876543210), " nine eight seven six five four three two one zero");
}
