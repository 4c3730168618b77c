use fake_number::ini::Config;
use fake_number::location::{regions, Location};
use fake_number::numbers::{display, number_for, pad3};

#[test]
fn pad_to_three_digits() {
    assert_eq!(pad3(0), "000");
    assert_eq!(pad3(7), "007");
    assert_eq!(pad3(42), "042");
    assert_eq!(pad3(305), "305");
    assert_eq!(pad3(999), "999");
}

#[test]
fn evil_mobile_number() {
    let c = Config { location: Location::Mobile, evil: true };
    assert_eq!(display(&c), "07700 900666");
    assert_eq!(number_for(&c, 3, 123), "07700 900666");
}

#[test]
fn plain_numbers_from_draws() {
    let c = Config { location: Location::Leeds, evil: false };
    assert_eq!(number_for(&c, 5, 42), "0113 496 0042");
    let c = Config { location: Location::London, evil: false };
    assert_eq!(number_for(&c, 0, 999), "020 7846 0999");
}

#[test]
fn random_region_uses_the_pick() {
    let c = Config { location: Location::Random, evil: false };
    assert_eq!(number_for(&c, 0, 1), "07700 900001");
    assert_eq!(number_for(&c, 19, 500), "029 2018 0500");
    let c = Config { location: Location::Random, evil: true };
    assert_eq!(number_for(&c, 5, 0), "0113 496 0666");
}

#[test]
fn evil_always_ends_in_666() {
    for l in fake_number::location::all() {
        let c = Config { location: l, evil: true };
        for _ in 0..20 {
            assert!(display(&c).ends_with("666"));
        }
    }
}

#[test]
fn plain_suffixes_cover_every_value() {
    let c = Config { location: Location::Mobile, evil: false };
    let mut seen = vec![0u32; 1000];
    for _ in 0..50000 {
        let s = display(&c);
        assert!(s.starts_with("07700 900"));
        let suf = &s["07700 900".len()..];
        assert_eq!(suf.len(), 3);
        assert!(suf.chars().all(|ch| ch.is_ascii_digit()));
        seen[suf.parse::<usize>().unwrap()] += 1;
    }
    assert!(seen.iter().all(|&k| k > 0));
    assert!(seen.iter().all(|&k| k < 150));
}

#[test]
fn random_region_reaches_every_region() {
    let c = Config { location: Location::Random, evil: true };
    let list = regions();
    let mut counts = vec![0u32; list.len()];
    for _ in 0..20000 {
        let s = display(&c);
        assert!(s.ends_with("666"));
        let pref = &s[..s.len() - 3];
        let k = list.iter().position(|l| l.to_prefix() == pref).unwrap();
        counts[k] += 1;
    }
    for &k in counts.iter() {
        assert!(k > 700 && k < 1300, "count {}", k);
    }
}
