use fake_number::ini::{load, save, Config, INIError};
use fake_number::location::{all, Location};

#[test]
fn default_config() {
    let c = Config::default();
    assert_eq!(c, Config { location: Location::Mobile, evil: false });
}

#[test]
fn saved_text() {
    let c = Config { location: Location::Mobile, evil: false };
    assert_eq!(save(&c), "[Settings]\nlocation=Mobile (07)\nevil=false\n");
    let c = Config { location: Location::Cardiff, evil: true };
    assert_eq!(save(&c), "[Settings]\nlocation=Cardiff (029)\nevil=true\n");
}

#[test]
fn load_after_save_round_trips() {
    for l in all() {
        for evil in [false, true] {
            let c = Config { location: l, evil };
            assert_eq!(load(&save(&c)), Ok(c));
        }
    }
}

#[test]
fn empty_record_fails() {
    assert_eq!(load(""), Err(INIError::LoadError));
    assert_eq!(load("\n\n"), Err(INIError::LoadError));
}

#[test]
fn corrupted_record_fails() {
    assert_eq!(load("\u{0}\u{1}garbage\u{ff}"), Err(INIError::LoadError));
    assert_eq!(load("[Settings\nlocation=Mobile (07)\nevil=true\n"), Err(INIError::LoadError));
    assert_eq!(
        load("[Settings]\nlocation=Mobile (07)\nnonsense\nevil=true\n"),
        Err(INIError::LoadError)
    );
}

#[test]
fn missing_keys_fail() {
    assert_eq!(load("[Settings]\nlocation=Mobile (07)\n"), Err(INIError::LoadError));
    assert_eq!(load("[Settings]\nevil=true\n"), Err(INIError::LoadError));
    assert_eq!(load("location=Mobile (07)\nevil=true\n"), Err(INIError::LoadError));
    assert_eq!(
        load("[Other]\nlocation=Mobile (07)\nevil=true\n"),
        Err(INIError::LoadError)
    );
}

#[test]
fn bad_values_fail() {
    assert_eq!(load("[Settings]\nlocation=Mars (99)\nevil=true\n"), Err(INIError::LoadError));
    assert_eq!(load("[Settings]\nlocation=mobile (07)\nevil=true\n"), Err(INIError::LoadError));
    assert_eq!(load("[Settings]\nlocation=Mobile (07)\nevil=TRUE\n"), Err(INIError::LoadError));
    assert_eq!(load("[Settings]\nlocation=Mobile (07)\nevil=1\n"), Err(INIError::LoadError));
}

#[test]
fn hand_edited_record_loads() {
    let text = "; saved settings\r\n\r\n[Other]\r\nevil=false\r\n[ Settings ]\r\n  location = Leeds (0113) \r\n# comment\r\nevil=true";
    assert_eq!(load(text), Ok(Config { location: Location::Leeds, evil: true }));
}

#[test]
fn first_entry_wins() {
    let text = "[Settings]\nlocation=Glasgow (0141)\nevil=false\nlocation=Leeds (0113)\nevil=true\n";
    assert_eq!(load(text), Ok(Config { location: Location::Glasgow, evil: false }));
}

#[test]
fn sections_may_be_split() {
    let text = "[Settings]\nevil=true\n[Other]\nlocation=Leeds (0113)\n[Settings]\nlocation=Random Region\n";
    assert_eq!(load(text), Ok(Config { location: Location::Random, evil: true }));
}

#[test]
fn value_may_hold_equals_sign() {
    assert_eq!(
        load("[Settings]\nlocation=Mobile (07)\nevil==true\n"),
        Err(INIError::LoadError)
    );
}
