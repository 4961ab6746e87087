use bstr::ByteSlice;
use repo_discover::ceiling::{admit_segment, parse_ceiling_dirs, split_segments, LIST_SEPARATOR};
use repo_discover::path::starts_at_root;

#[test]
fn parse_ceiling_dirs_from_environment_format() {
    // Setup filesystem
    let dir = tempfile::tempdir().expect("success creating temp dir");
    let direct = tempfile::Builder::new()
        .prefix("direct")
        .tempdir_in(dir.path())
        .expect("success creating the directory");
    let direct_path = direct.path().to_path_buf();
    let symlink_path = dir.path().join("symlink");
    symlink::symlink_dir(&direct_path, &symlink_path).expect("success creating the link");

    // Parse & build ceiling dirs string
    let symlink_str = symlink_path.to_str().expect("symlink path is valid utf8");
    let ceiling_dir_string = format!("{}:relative::{}", symlink_str, symlink_str);
    let ceiling_dirs = parse_ceiling_dirs(ceiling_dir_string.as_bytes());

    assert_eq!(ceiling_dirs.len(), 2, "Relative path is discarded");
    assert_eq!(
        ceiling_dirs[0],
        symlink_path
            .canonicalize()
            .expect("symlink path exists")
            .to_str()
            .expect("canonical path is valid utf8")
            .as_bytes(),
        "Symlinks are resolved"
    );
    assert_eq!(
        ceiling_dirs[1],
        symlink_str.as_bytes(),
        "Symlink are not resolved after empty item"
    );

    assert_ne!(ceiling_dirs[0], ceiling_dirs[1]);

    direct.close().unwrap();
    symlink::remove_symlink_dir(&symlink_path).unwrap();
    dir.close().unwrap();
}

#[test]
fn parsing_keeps_paths_that_do_not_exist() {
    let dirs = parse_ceiling_dirs(b"/no-such-dir-a/x:/no-such-dir-b::/no-such-dir-a/x");
    assert_eq!(
        dirs,
        vec![
            b"/no-such-dir-a/x".to_vec(),
            b"/no-such-dir-b".to_vec(),
            b"/no-such-dir-a/x".to_vec()
        ]
    );
}

#[test]
fn parsing_normalizes_only_before_the_empty_segment() {
    let dirs = parse_ceiling_dirs(b"/no-such-dir/a/../b::/no-such-dir/a/../b");
    assert_eq!(dirs.len(), 2);
    assert_eq!(dirs[0], b"/no-such-dir/b".to_vec());
    assert_eq!(dirs[1], b"/no-such-dir/a/../b".to_vec());
}

#[test]
fn parsing_discards_relative_and_empty_segments() {
    assert_eq!(parse_ceiling_dirs(b""), Vec::<Vec<u8>>::new());
    assert_eq!(parse_ceiling_dirs(b":::"), Vec::<Vec<u8>>::new());
    assert_eq!(parse_ceiling_dirs(b"relative:also/relative:."), Vec::<Vec<u8>>::new());
    assert_eq!(parse_ceiling_dirs(b"a::/b:c"), vec![b"/b".to_vec()]);
}

#[test]
fn every_parsed_path_is_absolute() {
    let inputs: Vec<&[u8]> = vec![
        b"/a:b:/c",
        b"::/x/y:z:/",
        b"/:/:/",
        b"x:/\xff\xfe:y",
        b"/tmp/../..:/tmp",
    ];
    for input in inputs {
        for dir in parse_ceiling_dirs(input) {
            assert!(starts_at_root(&dir));
        }
    }
}

#[test]
fn a_path_above_the_root_is_kept_as_written() {
    // resolution fails, so the segment stands as it is
    assert_eq!(parse_ceiling_dirs(b"/.."), vec![b"/..".to_vec()]);
}

#[test]
fn splitting_gives_one_more_piece_than_separators() {
    assert_eq!(split_segments(b"", LIST_SEPARATOR), vec![Vec::<u8>::new()]);
    assert_eq!(split_segments(b"a", LIST_SEPARATOR), vec![b"a".to_vec()]);
    assert_eq!(
        split_segments(b"a::b:", LIST_SEPARATOR),
        vec![b"a".to_vec(), Vec::new(), b"b".to_vec(), Vec::new()]
    );
    assert_eq!(
        split_segments(b"/x/y", b'/'),
        vec![Vec::new(), b"x".to_vec(), b"y".to_vec()]
    );
}

#[test]
fn admitting_a_segment() {
    // resolved and normalized
    assert_eq!(admit_segment(b"/a/sym", true, true, Some(b"/a/real".to_vec())), Some(b"/a/real".to_vec()));
    // not normalized: taken as written, whatever it resolves to
    assert_eq!(admit_segment(b"/a/sym", false, true, Some(b"/a/real".to_vec())), Some(b"/a/sym".to_vec()));
    // resolution failed: taken as written
    assert_eq!(admit_segment(b"/a/sym", true, true, None), Some(b"/a/sym".to_vec()));
    // resolves to a relative path
    assert_eq!(admit_segment(b"/a/sym", true, true, Some(b"real".to_vec())), None);
    // relative, empty, undecodable
    assert_eq!(admit_segment(b"relative", true, true, Some(b"/cwd/relative".to_vec())), None);
    assert_eq!(admit_segment(b"relative", false, true, None), None);
    assert_eq!(admit_segment(b"", true, true, None), None);
    assert_eq!(admit_segment(b"/a", true, false, None), None);
    assert_eq!(admit_segment(b"/a", false, false, None), None);
}

#[test]
fn splitting_agrees_with_the_byte_string_library() {
    let inputs: Vec<&[u8]> = vec![
        b"a",
        b":",
        b"a:b",
        b"/a/b:/c::d:",
        b":::",
        b"no separator at all",
        b"\xff:\xfe\x00:",
    ];
    for input in inputs {
        let expected: Vec<Vec<u8>> = input.split_str(":").map(|piece| piece.to_vec()).collect();
        assert_eq!(split_segments(input, LIST_SEPARATOR), expected);
    }
}

#[test]
fn what_follows_an_empty_segment_stands_as_written() {
    // whatever the file system holds: nothing behind the empty segment is resolved
    assert_eq!(
        parse_ceiling_dirs(b":/b:/a:/b"),
        vec![b"/b".to_vec(), b"/a".to_vec(), b"/b".to_vec()]
    );
    assert_eq!(
        parse_ceiling_dirs(b":/tmp/../x:relative:/tmp/./y/:"),
        vec![b"/tmp/../x".to_vec(), b"/tmp/./y/".to_vec()]
    );
    assert_eq!(parse_ceiling_dirs(b"::/"), vec![b"/".to_vec()]);
}

#[test]
fn an_ascii_segment_is_a_path_everywhere() {
    let dirs = parse_ceiling_dirs(b":/plain/ascii path with spaces");
    assert_eq!(dirs, vec![b"/plain/ascii path with spaces".to_vec()]);
}
