use nfmw_backend::archive::{parse_file, parse_line, ArchiveFileParseError, ArchiveItemType};

#[test]
fn attribute_lines_are_recognised() {
    let r = parse_line("name(My Car)".to_string()).unwrap().unwrap();
    assert_eq!(r.0, "name");
    assert_eq!(r.1, vec!["My Car".to_string()]);
}

#[test]
fn attribute_names_are_trimmed_and_parameters_split() {
    let r = parse_line("tag  (fast,red, shiny)".to_string()).unwrap().unwrap();
    assert_eq!(r.0, "tag");
    assert_eq!(r.1, vec!["fast".to_string(), "red".to_string(), " shiny".to_string()]);
}

#[test]
fn lines_outside_the_shape_are_skipped() {
    assert!(parse_line(String::new()).unwrap().is_none());
    assert!(parse_line("Name(x)".to_string()).unwrap().is_none());
    assert!(parse_line("1name(x)".to_string()).unwrap().is_none());
    assert!(parse_line("no brackets here".to_string()).unwrap().is_none());
    assert!(parse_line("only(open".to_string()).unwrap().is_none());
    assert!(parse_line("only)close".to_string()).unwrap().is_none());
    assert!(parse_line("a)b(c".to_string()).unwrap().is_none());
    assert!(parse_line("a(b)c(d)".to_string()).unwrap().is_none());
}

#[test]
fn empty_parameters_are_kept() {
    let r = parse_line("desc()".to_string()).unwrap().unwrap();
    assert_eq!(r.0, "desc");
    assert_eq!(r.1, vec![String::new()]);
    let r2 = parse_line("desc(a,,b)".to_string()).unwrap().unwrap();
    assert_eq!(r2.1, vec!["a".to_string(), String::new(), "b".to_string()]);
}

#[test]
fn a_file_folds_its_attributes() {
    let content = "\
NAME(Sunset Run)
carmaker(dot)
tag(fast)
junk line
tag(long)
description(a, scenic, stage)
";
    let info = parse_file(content.to_string(), false).unwrap();
    assert_eq!(info.name, "sunset run");
    assert_eq!(info.author.as_deref(), Some("dot"));
    assert_eq!(info.description.as_deref(), Some("a, scenic, stage"));
    assert_eq!(info.tags, vec!["fast".to_string(), "long".to_string()]);
    assert!(info.soundtrack.is_none());
}

#[test]
fn the_last_name_line_wins() {
    let content = "name(first)\nname(second)";
    let info = parse_file(content.to_string(), false).unwrap();
    assert_eq!(info.name, "second");
}

#[test]
fn a_file_without_a_name_is_refused() {
    let err = parse_file("author(dot)\ntag(x)".to_string(), false).unwrap_err();
    match err {
        ArchiveFileParseError::MissingField(f) => assert_eq!(f, "Name"),
        other => panic!("expected MissingField, got {:?}", other),
    }
}

#[test]
fn soundtracks_are_honoured_only_where_expected() {
    let content = "name(s)\nsoundtrack(folder,file)";
    let with = parse_file(content.to_string(), true).unwrap();
    assert_eq!(with.soundtrack, Some(("folder".to_string(), "file".to_string())));
    let without = parse_file(content.to_string(), false).unwrap();
    assert!(without.soundtrack.is_none());
}

#[test]
fn a_malformed_soundtrack_is_an_error() {
    let content = "name(s)\nsoundtrack(onlyfolder)";
    let err = parse_file(content.to_string(), true).unwrap_err();
    match err {
        ArchiveFileParseError::InvalidMusicPath(m) => {
            assert_eq!(m, "Must have one folder and one filename.")
        },
        other => panic!("expected InvalidMusicPath, got {:?}", other),
    }
}

#[test]
fn item_kinds_name_their_directories() {
    assert_eq!(ArchiveItemType::Car.kind_name(), "car");
    assert_eq!(ArchiveItemType::Car.dir_name(), "cars");
    assert_eq!(ArchiveItemType::Stage.dir_name(), "stages");
    assert_eq!(ArchiveItemType::StagePiece.dir_name(), "stage_pieces");
    assert_eq!(ArchiveItemType::Wheel.dir_name(), "wheels");
}

#[test]
fn item_kinds_parse_from_names_and_codes() {
    assert_eq!(ArchiveItemType::from_name("car"), Some(ArchiveItemType::Car));
    assert_eq!(ArchiveItemType::from_name("stage"), Some(ArchiveItemType::Stage));
    assert_eq!(ArchiveItemType::from_name("stage_piece"), Some(ArchiveItemType::StagePiece));
    assert_eq!(ArchiveItemType::from_name("wheel"), Some(ArchiveItemType::Wheel));
    assert_eq!(ArchiveItemType::from_name("boat"), None);
    assert_eq!(ArchiveItemType::from_code(0), Some(ArchiveItemType::Car));
    assert_eq!(ArchiveItemType::from_code(1), Some(ArchiveItemType::Stage));
    assert_eq!(ArchiveItemType::from_code(2), Some(ArchiveItemType::StagePiece));
    assert_eq!(ArchiveItemType::from_code(3), Some(ArchiveItemType::Wheel));
    assert_eq!(ArchiveItemType::from_code(4), None);
}
