use pacman_helper::Filter;

const OPENCC: &str = "[2022-01-23T10:31:28+0800] [ALPM] installed opencc (1.1.2-3)";
const FIREFOX: &str = "[2022-02-12T12:02:12+0800] [ALPM] upgraded firefox (96.0.3-1 -> 97.0-0.1)";

#[test]
fn date_prefix_selects_the_firefox_line_only() {
    let filter = Filter::new("2022-02-12");
    assert!(!filter.matches(OPENCC));
    assert!(filter.matches(FIREFOX));
}

#[test]
fn date_may_be_any_prefix_of_the_stamp() {
    assert!(Filter::new("2022").matches(OPENCC));
    assert!(Filter::new("2022").matches(FIREFOX));
    assert!(Filter::new("2022-01").matches(OPENCC));
    assert!(!Filter::new("2022-01").matches(FIREFOX));
    assert!(Filter::new("").matches(OPENCC));
    assert!(Filter::new("2022-01-23T10:31:28+0800] [ALPM]").matches(OPENCC));
    assert!(!Filter::new("022").matches(OPENCC));
}

#[test]
fn line_must_begin_with_the_bracket() {
    let filter = Filter::new("2022-02-12");
    assert!(!filter.matches("2022-02-12T12:02:12+0800] [ALPM] upgraded firefox (96.0.3-1 -> 97.0-0.1)"));
    assert!(!filter.matches(" [2022-02-12T12:02:12+0800] [ALPM] upgraded firefox (96.0.3-1 -> 97.0-0.1)"));
    assert!(!filter.matches(""));
    assert!(!filter.matches("[2022-02-1"));
}

#[test]
fn line_must_hold_a_marker() {
    let filter = Filter::new("2022-02-12");
    assert!(!filter.matches("[2022-02-12T12:02:12+0800] [ALPM] removed firefox (96.0.3-1)"));
    assert!(!filter.matches("[2022-02-12T12:02:12+0800] [ALPM] transaction started"));
    assert!(!filter.matches("[2022-02-12T12:02:12+0800] [ALPM] reinstalled firefox (96.0.3-1)"));
    assert!(!filter.matches("[2022-02-12T12:02:12+0800] [ALPM] upgraded"));
    assert!(filter.matches("[2022-02-12T12:02:12+0800] [ALPM] installed "));
}

#[test]
fn key_word_must_stand_in_the_line() {
    let filter = Filter::new2("2022", "fire");
    assert!(filter.matches(FIREFOX));
    assert!(!filter.matches(OPENCC));
    assert!(Filter::new2("2022", "").matches(OPENCC));
    assert!(Filter::new2("2022", "ALPM").matches(OPENCC));
    assert!(Filter::new2("2022", "(1.1.2-3)").matches(OPENCC));
    assert!(!Filter::new2("2022", "Firefox").matches(FIREFOX));
    assert!(!Filter::new2("2021", "fire").matches(FIREFOX));
}

#[test]
fn asking_twice_gives_the_same_answer() {
    let filter = Filter::new2("2022-02", "firefox");
    for line in [OPENCC, FIREFOX, "", "[2022-02"] {
        let first = filter.matches(line);
        let second = filter.matches(line);
        assert_eq!(first, second);
        let copy = String::from(line);
        assert_eq!(Filter::new2("2022-02", "firefox").matches(&copy), first);
    }
}
