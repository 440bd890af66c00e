use pacman_helper::text::{chars_of, find, includes, is_whitespace, last_piece_at, matches_at};
use pacman_helper::{convert, is_marked, ClassificationError, Pkg, PkgType};

fn chars(s: &str) -> Vec<char> {
    s.chars().collect()
}

#[test]
fn test_convert_installed() {
    let installed = "[2022-01-23T10:31:28+0800] [ALPM] installed opencc (1.1.2-3)";
    let p = convert(installed).unwrap();
    assert_eq!(p.name, "opencc");
    assert_eq!(p.version, "1.1.2-3");
    assert_eq!(p.p_type, PkgType::Installed);
    assert_eq!(p.get_pkg(), "opencc-1.1.2-3");
}

#[test]
fn test_convert_upgraded() {
    let upgraded = "[2022-02-12T12:02:12+0800] [ALPM] upgraded firefox (96.0.3-1 -> 97.0-0.1)";
    let p1 = convert(upgraded).unwrap();
    assert_eq!(p1.name, "firefox");
    assert_eq!(p1.version, "96.0.3-1");
    assert_eq!(p1.p_type, PkgType::Upgraded);
}

#[test]
fn upgraded_record_keeps_the_old_version_only() {
    let p = convert("[2023-05-01T08:00:00+0000] [ALPM] upgraded linux (6.2.1.arch1-1 -> 6.3.arch1-1)")
        .unwrap();
    assert_eq!(p.version, "6.2.1.arch1-1");
    assert_eq!(p.get_pkg(), "linux-6.2.1.arch1-1");
}

#[test]
fn identifier_is_name_hyphen_version() {
    let p = Pkg {
        name: String::from("gcc-libs"),
        version: String::from("12.1.0-2"),
        p_type: PkgType::Upgraded,
    };
    assert_eq!(p.get_pkg(), "gcc-libs-12.1.0-2");
}

#[test]
fn marker_without_words_is_malformed() {
    assert_eq!(convert("[d] [ALPM] installed ").unwrap_err(), ClassificationError::Malformed);
    assert_eq!(convert("[d] [ALPM] upgraded    ").unwrap_err(), ClassificationError::Malformed);
}

#[test]
fn marker_without_version_is_malformed() {
    assert_eq!(convert("[d] [ALPM] installed opencc").unwrap_err(), ClassificationError::Malformed);
    assert_eq!(convert("[d] [ALPM] upgraded firefox ").unwrap_err(), ClassificationError::Malformed);
}

#[test]
fn version_without_parentheses_is_malformed() {
    assert_eq!(
        convert("[d] [ALPM] installed opencc 1.1.2-3").unwrap_err(),
        ClassificationError::Malformed
    );
    assert_eq!(
        convert("[d] [ALPM] installed opencc (1.1.2-3").unwrap_err(),
        ClassificationError::Malformed
    );
    assert_eq!(
        convert("[d] [ALPM] installed opencc 1.1.2-3)").unwrap_err(),
        ClassificationError::Malformed
    );
    assert_eq!(convert("[d] [ALPM] installed opencc (").unwrap_err(), ClassificationError::Malformed);
    assert_eq!(
        convert("[d] [ALPM] upgraded firefox 96.0 -> 97.0)").unwrap_err(),
        ClassificationError::Malformed
    );
}

#[test]
fn empty_parentheses_give_an_empty_version() {
    let p = convert("[d] [ALPM] installed opencc ()").unwrap();
    assert_eq!(p.name, "opencc");
    assert_eq!(p.version, "");
}

#[test]
fn words_may_be_parted_by_any_white_space() {
    let p = convert("[d] [ALPM] installed \t opencc\u{a0}\u{3000}(1.1.2-3)\n").unwrap();
    assert_eq!(p.name, "opencc");
    assert_eq!(p.version, "1.1.2-3");
}

#[test]
fn words_behind_the_version_are_not_read() {
    let p = convert("[d] [ALPM] installed opencc (1.1.2-3) and more").unwrap();
    assert_eq!(p.name, "opencc");
    assert_eq!(p.version, "1.1.2-3");
}

#[test]
fn line_with_both_markers_is_an_installation() {
    let p = convert("[d] [ALPM] upgraded installed (1.0-1 -> 2.0-1)");
    assert_eq!(p.unwrap_err(), ClassificationError::Malformed);
    let q = convert("[d] [ALPM] installed upgraded (1.0-1)").unwrap();
    assert_eq!(q.name, "upgraded");
    assert_eq!(q.version, "1.0-1");
    assert_eq!(q.p_type, PkgType::Installed);
}

#[test]
fn the_last_marker_counts() {
    let p = convert("[ installed x (0)] [ALPM] installed opencc (1.1.2-3)").unwrap();
    assert_eq!(p.name, "opencc");
    assert_eq!(p.version, "1.1.2-3");
}

#[test]
fn non_ascii_names_are_kept() {
    let p = convert("[d] [ALPM] upgraded päckchen (1.0β-1 -> 2.0-1)").unwrap();
    assert_eq!(p.name, "päckchen");
    assert_eq!(p.version, "1.0β-1");
    assert_eq!(p.get_pkg(), "päckchen-1.0β-1");
}

#[test]
fn is_marked_sees_both_markers() {
    assert!(is_marked("[d] [ALPM] installed opencc (1.1.2-3)"));
    assert!(is_marked("[d] [ALPM] upgraded firefox (96.0.3-1 -> 97.0-0.1)"));
    assert!(!is_marked("[d] [ALPM] removed opencc (1.1.2-3)"));
    assert!(!is_marked("[d] [ALPM] installed"));
    assert!(!is_marked("[d] [PACMAN] Running 'pacman -Syu'"));
    assert!(!is_marked(""));
}

#[test]
fn white_space_is_what_std_calls_white_space() {
    let mut code: u32 = 0;
    while code <= 0x10ffff {
        if let Some(c) = char::from_u32(code) {
            assert_eq!(is_whitespace(c), c.is_whitespace(), "U+{:04X}", code);
        }
        code += 1;
    }
}

#[test]
fn chars_of_copies_every_character() {
    assert_eq!(chars_of("a→b"), vec!['a', '→', 'b']);
    assert_eq!(chars_of(""), Vec::<char>::new());
}

#[test]
fn matches_at_compares_in_place() {
    let s = chars("abcabc");
    assert!(matches_at(&s, &chars("abc"), 0));
    assert!(matches_at(&s, &chars("abc"), 3));
    assert!(!matches_at(&s, &chars("abc"), 1));
    assert!(!matches_at(&s, &chars("abc"), 4));
    assert!(matches_at(&s, &chars(""), 6));
    assert!(!matches_at(&s, &chars(""), 7));
    assert!(!matches_at(&chars("ab"), &chars("abc"), 0));
}

#[test]
fn find_gives_the_leftmost_match() {
    let s = chars("xx installed yy installed zz");
    let pat = chars(" installed ");
    assert_eq!(find(&s, &pat, 0), Some(2));
    assert_eq!(find(&s, &pat, 2), Some(2));
    assert_eq!(find(&s, &pat, 3), Some(15));
    assert_eq!(find(&s, &pat, 16), None);
    assert_eq!(find(&s, &pat, 100), None);
    assert_eq!(find(&chars("abc"), &chars("c"), 0), Some(2));
    assert!(includes(&s, &pat));
    assert!(!includes(&s, &chars(" upgraded ")));
    assert!(includes(&s, &chars("")));
}

#[test]
fn last_piece_follows_the_last_match_that_does_not_overlap() {
    let pat = chars(" installed ");
    assert_eq!(last_piece_at(&chars("a installed b"), &pat), 12);
    assert_eq!(last_piece_at(&chars("a installed b installed c"), &pat), 24);
    assert_eq!(last_piece_at(&chars("no marker"), &pat), 0);
    // the second match shares a blank with the first and is not one
    let doubled = chars(" installed installed x");
    assert_eq!(last_piece_at(&doubled, &pat), 11);
    let std_piece = " installed installed x".split(" installed ").last().unwrap();
    assert_eq!(std_piece, "installed x");
    assert_eq!(doubled[11..].iter().collect::<String>(), std_piece);
}

/// The same reading, made with the splitting functions of std.
fn by_std(line: &str) -> Result<(String, String, PkgType), ClassificationError> {
    let (marker, p_type) = if line.contains(" installed ") {
        (" installed ", PkgType::Installed)
    } else {
        (" upgraded ", PkgType::Upgraded)
    };
    let piece = line.split(marker).last().unwrap();
    let words: Vec<&str> = piece.split_whitespace().collect();
    if words.len() < 2 || !words[1].starts_with('(') {
        return Err(ClassificationError::Malformed);
    }
    let version = match p_type {
        PkgType::Installed => {
            if words[1].len() < 2 || !words[1].ends_with(')') {
                return Err(ClassificationError::Malformed);
            }
            &words[1][1..words[1].len() - 1]
        }
        PkgType::Upgraded => &words[1][1..],
    };
    Ok((String::from(words[0]), String::from(version), p_type))
}

#[test]
fn agrees_with_the_splitting_of_std() {
    let lines = [
        "[2022-01-23T10:31:28+0800] [ALPM] installed opencc (1.1.2-3)",
        "[2022-02-12T12:02:12+0800] [ALPM] upgraded firefox (96.0.3-1 -> 97.0-0.1)",
        " installed ",
        " upgraded ",
        " installed installed (1)",
        " installed installed installed (1) x",
        " upgraded upgraded upgraded (1 -> 2)",
        " installed a (1) installed b (2)",
        " installed a (1) installed  installed ",
        " upgraded a (1 -> 2) installed b (3)",
        " installed a (1) upgraded b (2 -> 3)",
        "x installed \u{2003}näme\u{85}(vérsion)\u{2028}tail",
        "x upgraded a\u{1680}(b\u{205f}->\u{202f}c)",
        "x installed a\u{200b}b (1)",
        "x installed a (1)(2)",
        "x installed a ((1))",
        "x installed a ()",
        "x installed a )(",
        "x installed a (",
        "x installed a )",
        "x upgraded a (",
        "x upgraded a ((",
        "x upgraded a 1",
        "x upgraded a",
        "x upgraded (a",
        "x installed (a) (b)",
        "x installed \ta\t(1)\t",
        "x installed a\n(1)\r\n",
        "x installed installed",
        "x upgraded  upgraded  (1 -> 2)",
        "installed a (1) installed b (2)",
        "x installed a (1) installed",
    ];
    for line in lines {
        assert!(is_marked(line), "{:?}", line);
        let ours = convert(line).map(|p| (p.name, p.version, p.p_type));
        assert_eq!(ours, by_std(line), "{:?}", line);
    }
}
