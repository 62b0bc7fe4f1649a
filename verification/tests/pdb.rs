use noontide_emu::hex::try_parse_hex_file;
use noontide_emu::pdb::{
    find_debug_data, find_line, memory_dump, parse_hex_file, render_debug, try_find_debug_data,
    DebugData, DebugSources, SourceKind,
};

fn entries(data: &DebugData) -> Vec<(u64, &str)> {
    data.offsets.iter().map(|(offset, line)| (*offset, line.as_str())).collect()
}

fn four_lines() -> DebugData {
    parse_hex_file(
        "0000000000000001\n\
         0000000000000002\n\
         000000000000000300000000000000040000000000000005\n\
         000000000000000600000000000000070000000000000008\n",
    )
}

#[test]
fn hex_lines_get_the_offset_of_their_first_byte() {
    let data = parse_hex_file("00 01 02 03\n0a0B0c0D # ff ff\n\nAB ; cd\nff");
    assert_eq!(
        entries(&data),
        vec![(0, "00 01 02 03"), (4, "0a0B0c0D # ff ff"), (8, ""), (8, "AB ; cd"), (9, "ff")]
    );
    let parsed = try_parse_hex_file("00 01 02 03\n0a0B0c0D # ff ff\n\nAB ; cd\nff").unwrap();
    assert_eq!(parsed.size, 10);
    assert_eq!(entries(&parsed.data), entries(&data));
}

#[test]
fn hex_directives_and_labels() {
    let text = ":start\n?start &start 00\n&far\n:end aa\n? 11\n";
    let parsed = try_parse_hex_file(text).unwrap();
    assert_eq!(
        entries(&parsed.data),
        vec![(0, ":start"), (0, "?start &start 00"), (33, "&far"), (49, ":end aa"), (50, "? 11")]
    );
    assert_eq!(parsed.size, 67);
}

#[test]
fn hex_digits_inside_a_token_are_not_counted() {
    let parsed = try_parse_hex_file(":abcdef\n:ab cd\n?ff").unwrap();
    assert_eq!(entries(&parsed.data), vec![(0, ":abcdef"), (0, ":ab cd"), (1, "?ff")]);
    assert_eq!(parsed.size, 17);
}

#[test]
fn hex_line_endings() {
    let data = parse_hex_file("aa\r\nbb\n\r\ncc\r");
    assert_eq!(entries(&data), vec![(0, "aa"), (1, "bb"), (2, ""), (2, "cc\r")]);
    assert_eq!(entries(&parse_hex_file("")), vec![]);
    assert_eq!(entries(&parse_hex_file("\n")), vec![(0, "")]);
    assert_eq!(entries(&parse_hex_file("\n\n")), vec![(0, ""), (0, "")]);
    assert_eq!(entries(&parse_hex_file("aa\n")), vec![(0, "aa")]);
    assert_eq!(entries(&parse_hex_file("a\ra\n")), vec![(0, "a\ra")]);
    assert_eq!(entries(&parse_hex_file("\u{e9}\u{4e16} 1234")), vec![(0, "\u{e9}\u{4e16} 1234")]);
}

#[test]
fn hex_offsets_never_decrease() {
    let data = parse_hex_file("aabb\n\n:x\ncc\n# only a comment\nddeeff00\n?y\n");
    let offsets: Vec<u64> = data.offsets.iter().map(|entry| entry.0).collect();
    assert_eq!(offsets, vec![0, 2, 2, 2, 3, 3, 7]);
    assert!(offsets.windows(2).all(|pair| pair[0] <= pair[1]));
}

#[test]
fn hex_line_with_an_odd_number_of_digits_is_refused() {
    assert!(try_parse_hex_file("abc").is_none());
    assert!(try_parse_hex_file("aa\nbb\nc\ndd").is_none());
    assert!(try_parse_hex_file("a b").is_some());
    assert!(try_parse_hex_file("a # b").is_none());
    assert!(try_parse_hex_file("a ?b").is_none());
    assert!(try_parse_hex_file("a :b c").is_some());
}

#[test]
fn find_line_bisects() {
    let data = four_lines();
    assert_eq!(entries(&data).iter().map(|e| e.0).collect::<Vec<u64>>(), vec![0, 8, 16, 40]);
    for (eip, line) in [(0, 0), (7, 0), (8, 1), (15, 1), (16, 2), (39, 2), (40, 3), (1000, 3)] {
        assert_eq!(find_line(&data, eip), line);
    }
    let repeated = parse_hex_file("aa\n\n\nbb\n\n");
    assert_eq!(find_line(&repeated, 0), 0);
    assert_eq!(find_line(&repeated, 1), 3);
    assert_eq!(find_line(&repeated, 2), 4);
    assert_eq!(find_line(&repeated, 3), 4);
}

#[test]
fn debug_rendering() {
    let data = Some(four_lines());
    let (line, text) = render_debug(&data, 16, 1, false);
    assert_eq!(line, 2);
    assert_eq!(
        text,
        "    0000000000000002\r\n\
         ->  000000000000000300000000000000040000000000000005\r\n\
         \x20   000000000000000600000000000000070000000000000008"
    );
    let (line, text) = render_debug(&data, 16, 1, true);
    assert_eq!(line, 2);
    assert_eq!(
        text,
        "    0000000000000002\n\
         ->  000000000000000300000000000000040000000000000005\n\
         \x20   000000000000000600000000000000070000000000000008"
    );
}

#[test]
fn rendering_stops_at_the_ends_of_the_file() {
    let data = Some(parse_hex_file("aa\nbb\ncc\ndd\nee"));
    assert_eq!(render_debug(&data, 0, 1, true), (0, "->  aa\n    bb".to_string()));
    assert_eq!(render_debug(&data, 0, 0, true), (0, "->  aa".to_string()));
    assert_eq!(render_debug(&data, 1, 0, false), (1, "->  bb".to_string()));
    assert_eq!(
        render_debug(&data, 2, 2, true),
        (2, "    aa\n    bb\n->  cc\n    dd\n    ee".to_string())
    );
    assert_eq!(
        render_debug(&data, 2, usize::MAX, true),
        (2, "    aa\n    bb\n->  cc\n    dd\n    ee".to_string())
    );
    assert_eq!(render_debug(&data, 3, 1, true), (3, "    cc\n->  dd\n    ee".to_string()));
    assert_eq!(render_debug(&data, 4, 1, true), (4, "    dd\n->  ee".to_string()));
}

#[test]
fn rendering_without_a_line_gives_a_message() {
    assert_eq!(
        render_debug(&None, 0, 5, false),
        (-1, "Error: Missing hex0, hex1, hex2, or lsq file for debugging".to_string())
    );
    let data = Some(four_lines());
    assert_eq!(
        render_debug(&data, 41, 5, false),
        (
            -1,
            "Error: Current EIP is beyond end of debug file (Run-time generated code?)"
                .to_string()
        )
    );
    assert_eq!(render_debug(&data, u64::MAX, 0, true).0, -1);
    assert_eq!(render_debug(&data, 40, 0, true).0, 3);
}

#[test]
fn memory_dump_shows_sixteen_bytes_to_a_row() {
    let mut mem = vec![0u8; 0x1000 + 5];
    for (index, byte) in mem.iter_mut().enumerate() {
        *byte = (index % 251) as u8;
    }
    mem[0x1000] = 0xee;
    let dump = memory_dump(&mem);
    let rows: Vec<&str> = dump.split("\r\n").collect();
    assert_eq!(rows.len(), 257);
    assert_eq!(rows[256], "");
    assert_eq!(rows[0], "00000000: 0001 0203 0405 0607 0809 0a0b 0c0d 0e0f");
    assert_eq!(rows[1], "00000010: 1011 1213 1415 1617 1819 1a1b 1c1d 1e1f");
    // 0xff0 is 4080, and 4080 % 251 is 64.
    assert_eq!(rows[255], "00000ff0: 4041 4243 4445 4647 4849 4a4b 4c4d 4e4f");
    assert_eq!(dump.len(), 256 * 51);
    assert_eq!(memory_dump(&vec![0xffu8; 0x1000])[..51].to_string(),
        "00000000: ffff ffff ffff ffff ffff ffff ffff ffff\r\n");
}

fn sources(hex0: Option<&str>, hex1: Option<&str>, hex2: Option<&str>, lsq: Option<&str>) -> DebugSources {
    DebugSources {
        hex0: hex0.map(str::to_string),
        hex1: hex1.map(str::to_string),
        hex2: hex2.map(str::to_string),
        lsq: lsq.map(str::to_string),
    }
}

#[test]
fn last_existing_debug_file_wins() {
    assert!(find_debug_data(&sources(None, None, None, None)).is_none());
    let only0 = find_debug_data(&sources(Some("aa\nbb"), None, None, None)).unwrap();
    assert_eq!(entries(&only0), vec![(0, "aa"), (1, "bb")]);
    let both = find_debug_data(&sources(Some("aa\nbb"), Some("ccdd"), None, None)).unwrap();
    assert_eq!(entries(&both), vec![(0, "ccdd")]);
    let hex2 = find_debug_data(&sources(Some("aa"), None, Some(":l\n?l"), None)).unwrap();
    assert_eq!(entries(&hex2), vec![(0, ":l"), (0, "?l")]);
    let lsq = find_debug_data(&sources(Some("aa"), Some("bb"), Some("cc"), Some("raw 1\nraw 2 3")))
        .unwrap();
    assert_eq!(entries(&lsq), vec![(0, "raw 1"), (8, "raw 2 3")]);
    let found = try_find_debug_data(&sources(None, None, None, Some("raw 1\nraw 2 3")))
        .unwrap()
        .unwrap();
    assert_eq!(found.size, 24);
    assert_eq!(entries(&found.data), vec![(0, "raw 1"), (8, "raw 2 3")]);
    assert!(try_find_debug_data(&sources(None, None, None, None)).unwrap().is_none());
}

#[test]
fn first_unreadable_debug_file_is_named() {
    let bad = |found: Result<_, SourceKind>| -> SourceKind {
        match found {
            Ok::<Option<noontide_emu::pdb::Parsed>, SourceKind>(_) => panic!("read"),
            Err(kind) => kind,
        }
    };
    assert_eq!(bad(try_find_debug_data(&sources(Some("a"), Some("b"), None, None))), SourceKind::Hex0);
    assert_eq!(bad(try_find_debug_data(&sources(Some("aa"), Some("b"), Some("cc"), None))), SourceKind::Hex1);
    assert_eq!(bad(try_find_debug_data(&sources(None, None, Some("c"), Some("abssq")))), SourceKind::Hex2);
    assert_eq!(bad(try_find_debug_data(&sources(Some("aa"), None, None, Some("abssq x")))), SourceKind::Lsq);
    // An unreadable file is refused even where a later file would win.
    assert_eq!(bad(try_find_debug_data(&sources(Some("a"), None, None, Some("raw 1")))), SourceKind::Hex0);
}

#[test]
fn lines_are_split_as_the_standard_library_splits_them() {
    for text in [
        "",
        "\n",
        "\r\n",
        "\r",
        "a",
        "a\n",
        "a\r\n",
        "a\r",
        "a\n\n",
        "\n\na",
        "a\r\r\n",
        "a\n\rb",
        "a\r\nb\nc\r\n\r\nd",
        "\u{e9}\n\u{4e16}\r\n",
    ] {
        let quiet = text.replace(|c: char| c.is_ascii_hexdigit(), "x");
        let data = parse_hex_file(&quiet);
        let lines: Vec<&str> = data.offsets.iter().map(|entry| entry.1.as_str()).collect();
        assert_eq!(lines, quiet.lines().collect::<Vec<&str>>());
    }
}

#[test]
fn rendering_needs_no_first_offset_of_zero() {
    let data = Some(DebugData {
        offsets: vec![(8, "a".to_string()), (16, "b".to_string()), (16, "c".to_string())],
    });
    assert_eq!(render_debug(&data, 8, 1, true), (0, "->  a\n    b".to_string()));
    assert_eq!(render_debug(&data, 15, 5, false), (0, "->  a\r\n    b\r\n    c".to_string()));
    assert_eq!(render_debug(&data, 16, 0, true), (2, "->  c".to_string()));
    assert_eq!(find_line(data.as_ref().unwrap(), 15), 0);
    assert_eq!(render_debug(&data, 17, 0, true).0, -1);
}

#[test]
fn debug_data_is_missing_exactly_when_no_file_exists() {
    let texts = [None, Some("aa")];
    for hex0 in texts {
        for hex1 in texts {
            for hex2 in texts {
                for lsq in [None, Some("zeroaddr nowhere\nraw 1")] {
                    let found = find_debug_data(&sources(hex0, hex1, hex2, lsq));
                    let none_exists =
                        hex0.is_none() && hex1.is_none() && hex2.is_none() && lsq.is_none();
                    assert_eq!(found.is_none(), none_exists);
                    if lsq.is_some() {
                        assert_eq!(
                            entries(&found.unwrap()),
                            vec![(0, "zeroaddr nowhere"), (0, "raw 1")]
                        );
                    }
                }
            }
        }
    }
}
