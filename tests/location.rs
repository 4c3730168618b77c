use fake_number::location::{all, regions, Location};

#[test]
fn mobile_label_and_prefix() {
    assert_eq!(Location::Mobile.as_string(), "Mobile (07)");
    assert_eq!(Location::Mobile.to_prefix(), "07700 900");
}

#[test]
fn some_labels_and_prefixes() {
    assert_eq!(Location::Leeds.as_string(), "Leeds (0113)");
    assert_eq!(Location::Leeds.to_prefix(), "0113 496 0");
    assert_eq!(Location::NoArea.as_string(), "No Area (01632)");
    assert_eq!(Location::NoArea.to_prefix(), "01632 960");
    assert_eq!(
        Location::TynesideDurhamSunderland.as_string(),
        "Tyneside/Durham/Sunderland (0191)"
    );
    assert_eq!(Location::NI.to_prefix(), "028 9649 6");
    assert_eq!(Location::Random.as_string(), "Random Region");
}

#[test]
fn every_label_reads_back() {
    for l in all() {
        assert_eq!(Location::from_str(&l.as_string()), Ok(l));
    }
}

#[test]
fn unknown_labels_are_refused() {
    assert_eq!(Location::from_str(""), Err(()));
    assert_eq!(Location::from_str("Mobile"), Err(()));
    assert_eq!(Location::from_str("mobile (07)"), Err(()));
    assert_eq!(Location::from_str(" Mobile (07)"), Err(()));
    assert_eq!(Location::from_str("Mobile (07) "), Err(()));
}

#[test]
fn labels_are_distinct() {
    let list = all();
    for (i, a) in list.iter().enumerate() {
        for b in list.iter().skip(i + 1) {
            assert_ne!(a.as_string(), b.as_string());
        }
    }
}

#[test]
fn prefixes_are_distinct_and_not_empty() {
    let list = regions();
    for (i, a) in list.iter().enumerate() {
        assert!(!a.to_prefix().is_empty());
        for b in list.iter().skip(i + 1) {
            assert_ne!(a.to_prefix(), b.to_prefix());
        }
    }
}

#[test]
fn listing_order() {
    let list = all();
    assert_eq!(list.len(), 21);
    assert_eq!(list[0], Location::Mobile);
    assert_eq!(list[19], Location::Cardiff);
    assert_eq!(list[20], Location::Random);
    let r = regions();
    assert_eq!(r.len(), 20);
    assert!(!r.contains(&Location::Random));
    assert_eq!(&list[..20], &r[..]);
}
