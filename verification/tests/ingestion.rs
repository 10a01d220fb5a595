use mega_sena::checksum::{checksum_of, to_hex};
use mega_sena::csv_row::{
    is_blank_char, read_integer, read_number_field, read_row, strip_quotes, CsvDraw, RowError,
    FIELDS_PER_ROW,
};
use mega_sena::ingest::{read_history_file, read_records, IngestError, DELIMITER};
use mega_sena::migration::{
    inspect, is_migration_file, next_step, MigrationLedger, MigrationStep,
};

fn fields(values: &[&str]) -> Vec<String> {
    values.iter().map(|v| String::from(*v)).collect()
}

#[test]
fn blanks_and_quotes_are_cut_in_turn() {
    assert_eq!(strip_quotes("12"), "12");
    assert_eq!(strip_quotes("  12\t\n"), "12");
    assert_eq!(strip_quotes("'12'"), "12");
    assert_eq!(strip_quotes("\"12\""), "12");
    assert_eq!(strip_quotes(" '\"12\"' "), "12");
    assert_eq!(strip_quotes("\"'12'\""), "'12'");
    assert_eq!(strip_quotes("' 12 '"), "12");
    assert_eq!(strip_quotes("'' ''"), "");
    assert_eq!(strip_quotes("\" 1 2 \""), "1 2");
    assert_eq!(strip_quotes(""), "");
    assert_eq!(strip_quotes("   "), "");
    assert_eq!(strip_quotes("'''"), "");
    assert_eq!(strip_quotes("01/02/2003"), "01/02/2003");
    assert_eq!(strip_quotes("\u{a0}\u{3000}x\u{2003}"), "x");
    assert_eq!(strip_quotes("a'b\"c"), "a'b\"c");
}

#[test]
fn cleaning_agrees_with_the_standard_trims() {
    let samples = [
        "", " ", "'", "\"", " ' ", "'\"'", "\"'\"", " ' \" x \" ' ", "x", " x y ", "''x''",
        "\"\"x\"\"", "'\"x", "x\"'", "\t'1'\r\n", "\u{1680}7\u{205f}", "\u{200b}7", "'a' 'b'",
        " \"'\" ", "'  \" 5 \"  '",
    ];
    for s in samples {
        let expected = s.trim().trim_matches('\'').trim_matches('"').trim();
        assert_eq!(strip_quotes(s), expected, "cleaning {:?}", s);
    }
}

#[test]
fn white_space_is_what_unicode_says() {
    for code in 0u32..=0x3100 {
        if let Some(c) = char::from_u32(code) {
            assert_eq!(is_blank_char(c), c.is_whitespace(), "U+{:04X}", code);
        }
    }
    assert!(!is_blank_char('\u{10FFFF}'));
    assert!(!is_blank_char('\u{FEFF}'));
}

#[test]
fn integers_are_read_with_an_optional_sign() {
    assert_eq!(read_integer("0"), Some(0));
    assert_eq!(read_integer("7"), Some(7));
    assert_eq!(read_integer("+7"), Some(7));
    assert_eq!(read_integer("-7"), Some(-7));
    assert_eq!(read_integer("-0"), Some(0));
    assert_eq!(read_integer("007"), Some(7));
    assert_eq!(read_integer("2345"), Some(2345));
    assert_eq!(read_integer("9223372036854775807"), Some(i64::MAX));
    assert_eq!(read_integer("-9223372036854775808"), Some(i64::MIN));
    assert_eq!(read_integer("+0000000000000000000009223372036854775807"), Some(i64::MAX));
}

#[test]
fn anything_else_is_no_integer() {
    assert_eq!(read_integer(""), None);
    assert_eq!(read_integer("+"), None);
    assert_eq!(read_integer("-"), None);
    assert_eq!(read_integer("--1"), None);
    assert_eq!(read_integer("+-1"), None);
    assert_eq!(read_integer("1-"), None);
    assert_eq!(read_integer(" 1"), None);
    assert_eq!(read_integer("1 "), None);
    assert_eq!(read_integer("12a"), None);
    assert_eq!(read_integer("a12"), None);
    assert_eq!(read_integer("1.0"), None);
    assert_eq!(read_integer("1_000"), None);
    assert_eq!(read_integer("\u{ff11}\u{ff12}"), None);
    assert_eq!(read_integer("9223372036854775808"), None);
    assert_eq!(read_integer("-9223372036854775809"), None);
    assert_eq!(read_integer("99999999999999999999999999999999999999999999"), None);
    assert_eq!(read_integer("-99999999999999999999999999999999999999999999"), None);
    assert_eq!(read_integer("92233720368547758070"), None);
}

#[test]
fn reading_agrees_with_the_standard_parser() {
    let samples = [
        "", "0", "-0", "+0", "1", "-1", "+1", "00", "0x10", "١٢", "12 ", "\t12", "1e3", "+", "-",
        "9223372036854775806", "9223372036854775807", "9223372036854775808",
        "-9223372036854775807", "-9223372036854775808", "-9223372036854775809",
        "18446744073709551616", "000000000000000000000000000001", "/", ":", "0/", "0:",
    ];
    for s in samples {
        assert_eq!(read_integer(s), s.parse::<i64>().ok(), "reading {:?}", s);
    }
}

#[test]
fn number_field_is_cleaned_before_it_is_read() {
    assert_eq!(read_number_field(" '42' "), Some(42));
    assert_eq!(read_number_field("\"-3\""), Some(-3));
    assert_eq!(read_number_field("' 17 '"), Some(17));
    assert_eq!(read_number_field("\"'17'\""), None);
    assert_eq!(read_number_field("''"), None);
    assert_eq!(read_number_field("4 2"), None);
}

#[test]
fn row_of_eight_fields_is_a_draw() {
    assert_eq!(FIELDS_PER_ROW, 8);
    let row = fields(&["2345", "10/02/2021", "4", "8", "15", "16", "23", "42"]);
    assert_eq!(
        read_row(&row),
        Ok(Some(CsvDraw {
            concurso: 2345,
            data: String::from("10/02/2021"),
            bola_1: 4,
            bola_2: 8,
            bola_3: 15,
            bola_4: 16,
            bola_5: 23,
            bola_6: 42,
        }))
    );
}

#[test]
fn quoted_fields_and_extra_columns_are_accepted() {
    let row = fields(&[
        " '1' ", "\"11/03/1996\"", "'04'", " 05 ", "\"30\"", "33", "+41", "'52'", "0", "ignored",
    ]);
    assert_eq!(
        read_row(&row),
        Ok(Some(CsvDraw {
            concurso: 1,
            data: String::from("11/03/1996"),
            bola_1: 4,
            bola_2: 5,
            bola_3: 30,
            bola_4: 33,
            bola_5: 41,
            bola_6: 52,
        }))
    );
}

#[test]
fn short_row_is_passed_over() {
    assert_eq!(read_row(&Vec::new()), Ok(None));
    assert_eq!(read_row(&fields(&["1", "d", "1", "2", "3", "4", "5"])), Ok(None));
    assert_eq!(read_row(&fields(&["x", "d", "y", "z", "3", "4", "5"])), Ok(None));
}

#[test]
fn row_fails_on_its_first_bad_number() {
    let bad_concurso = fields(&["n/a", "d", "1", "2", "x", "4", "5", "6"]);
    assert_eq!(read_row(&bad_concurso), Err(RowError::InvalidNumber { column: 0 }));
    let bad_third_ball = fields(&["1", "d", "1", "2", "x", "4", "y", "6"]);
    assert_eq!(read_row(&bad_third_ball), Err(RowError::InvalidNumber { column: 4 }));
    let bad_last_ball = fields(&["1", "", "1", "2", "3", "4", "5", ""]);
    assert_eq!(read_row(&bad_last_ball), Err(RowError::InvalidNumber { column: 7 }));
    let any_date = fields(&["1", "not a date", "1", "2", "3", "4", "5", "6"]);
    assert_eq!(read_row(&any_date).unwrap().unwrap().data, "not a date");
}

#[test]
fn bytes_are_written_in_lower_case_hexadecimal() {
    assert_eq!(to_hex(&[]), "");
    assert_eq!(to_hex(&[0]), "00");
    assert_eq!(to_hex(&[0x0f, 0xf0, 0xab, 0x09, 0xff]), "0ff0ab09ff");
    let all: Vec<u8> = (0u8..=255).collect();
    let expected: String = all.iter().map(|b| format!("{:02x}", b)).collect();
    assert_eq!(to_hex(&all), expected);
}

#[test]
fn checksum_is_the_sha3_256_digest() {
    assert_eq!(
        checksum_of(b""),
        "a7ffc6f8bf1ed76651c14756a061d662f580ff4de43b49fa82d80a4b80f8434a"
    );
    assert_eq!(
        checksum_of(b"abc"),
        "3a985da74fe225b2045c172d6bd390bd855f086e3e9d525b46bfe24511431532"
    );
    assert_ne!(checksum_of(b"CREATE TABLE t (a);"), checksum_of(b"CREATE TABLE t (b);"));
}

#[test]
fn ledger_decides_the_step() {
    let checksum = String::from("abc");
    assert_eq!(next_step(&None, &checksum), MigrationStep::Apply);
    assert_eq!(next_step(&Some(String::from("abc")), &checksum), MigrationStep::AlreadyApplied);
    assert_eq!(next_step(&Some(String::from("abd")), &checksum), MigrationStep::ChecksumMismatch);
    assert_eq!(next_step(&Some(String::from("ABC")), &checksum), MigrationStep::ChecksumMismatch);
    assert_eq!(next_step(&Some(String::new()), &checksum), MigrationStep::ChecksumMismatch);
    assert_eq!(next_step(&Some(String::new()), &String::new()), MigrationStep::AlreadyApplied);
}

#[test]
fn file_is_inspected_against_the_ledger() {
    let content = b"abc";
    let digest = "3a985da74fe225b2045c172d6bd390bd855f086e3e9d525b46bfe24511431532";
    assert_eq!(inspect(&None, content), (MigrationStep::Apply, String::from(digest)));
    assert_eq!(
        inspect(&Some(String::from(digest)), content),
        (MigrationStep::AlreadyApplied, String::from(digest))
    );
    assert_eq!(
        inspect(&Some(String::from(digest)), b"abd").0,
        MigrationStep::ChecksumMismatch
    );
    assert_eq!(
        inspect(&Some(String::from("abc")), content),
        (MigrationStep::ChecksumMismatch, String::from(digest))
    );
}

#[test]
fn migration_files_end_in_dot_sql() {
    assert!(is_migration_file("001_create.sql"));
    assert!(is_migration_file("a.sql"));
    assert!(is_migration_file("a.b.sql"));
    assert!(is_migration_file("..sql"));
    assert!(is_migration_file("\u{e9}.sql"));
    assert!(!is_migration_file(".sql"));
    assert!(!is_migration_file("sql"));
    assert!(!is_migration_file(""));
    assert!(!is_migration_file("a.SQL"));
    assert!(!is_migration_file("a.sql.bak"));
    assert!(!is_migration_file("a.sqlx"));
    assert!(!is_migration_file("asql"));
    assert!(!is_migration_file("a.sq"));
}

#[test]
fn migration_files_are_those_with_the_sql_extension() {
    let names = [
        "001.sql", ".sql", "..sql", "x", "x.", "x.sql", "x.sql.", "x.txt", "a.b.c.sql", "sql",
        "x.sqL", ".hidden.sql", "", "....", "x..sql",
    ];
    for name in names {
        let expected = std::path::Path::new(name).extension().and_then(|e| e.to_str())
            == Some("sql");
        assert_eq!(is_migration_file(name), expected, "name {:?}", name);
    }
}

#[test]
fn ledger_gates_each_change_set() {
    let abc = "3a985da74fe225b2045c172d6bd390bd855f086e3e9d525b46bfe24511431532";
    let mut ledger = MigrationLedger::new();
    let first = String::from("001_create.sql");
    let second = String::from("002_alter.sql");
    assert_eq!(ledger.recorded(&first), None);
    assert_eq!(ledger.inspect(&first, b"abc"), (MigrationStep::Apply, String::from(abc)));

    ledger.record(first.clone(), String::from(abc));
    assert_eq!(ledger.recorded(&first), Some(String::from(abc)));
    assert_eq!(ledger.recorded(&second), None);
    assert_eq!(ledger.inspect(&first, b"abc").0, MigrationStep::AlreadyApplied);
    assert_eq!(ledger.inspect(&first, b"abd").0, MigrationStep::ChecksumMismatch);
    assert_eq!(ledger.inspect(&second, b"abc").0, MigrationStep::Apply);
}

#[test]
fn ledger_keeps_the_latest_record_of_a_name() {
    let mut ledger = MigrationLedger::new();
    let name = String::from("001.sql");
    ledger.record(name.clone(), String::from("old"));
    ledger.record(String::from("002.sql"), String::from("other"));
    ledger.record(name.clone(), String::from("new"));
    assert_eq!(ledger.recorded(&name), Some(String::from("new")));
    assert_eq!(ledger.recorded(&String::from("002.sql")), Some(String::from("other")));
    assert_eq!(ledger.recorded(&String::from("003.sql")), None);
    assert_eq!(ledger.recorded(&String::new()), None);
}

fn draw(concurso: i64, data: &str, balls: [i64; 6]) -> CsvDraw {
    CsvDraw {
        concurso,
        data: String::from(data),
        bola_1: balls[0],
        bola_2: balls[1],
        bola_3: balls[2],
        bola_4: balls[3],
        bola_5: balls[4],
        bola_6: balls[5],
    }
}

const HEADER: &str = "Concurso,Data,bola 1,bola 2,bola 3,bola 4,bola 5,bola 6\n";

#[test]
fn file_gives_its_draws_in_order() {
    assert_eq!(DELIMITER, b',');
    let content = format!(
        "{}1,11/03/1996,04,05,30,33,41,52\n2,18/03/1996,09,37,39,41,43,49\n",
        HEADER
    );
    assert_eq!(
        read_history_file(content.as_bytes()),
        Ok(vec![
            draw(1, "11/03/1996", [4, 5, 30, 33, 41, 52]),
            draw(2, "18/03/1996", [9, 37, 39, 41, 43, 49]),
        ])
    );
}

#[test]
fn header_line_is_no_draw() {
    assert_eq!(read_history_file(b""), Ok(Vec::new()));
    assert_eq!(read_history_file(HEADER.as_bytes()), Ok(Vec::new()));
    let numeric_header = "1,2,3,4,5,6,7,8\n9,d,1,2,3,4,5,6\n";
    assert_eq!(
        read_history_file(numeric_header.as_bytes()),
        Ok(vec![draw(9, "d", [1, 2, 3, 4, 5, 6])])
    );
}

#[test]
fn quotes_of_both_kinds_are_taken_off() {
    let content = format!(
        "{}\"3\",\" 25/03/1996 \",'10','11', 29 ,\"'30'\",36,+47\n",
        HEADER
    );
    assert_eq!(
        read_history_file(content.as_bytes()),
        Ok(vec![draw(3, "25/03/1996", [10, 11, 29, 30, 36, 47])])
    );
}

#[test]
fn file_of_narrow_records_gives_no_draw() {
    let content = "a,b,c,d,e,f,g\n1,d,1,2,3,4,5\nx,y,z,1,2,3,4\n";
    assert_eq!(read_history_file(content.as_bytes()), Ok(Vec::new()));
}

#[test]
fn first_bad_number_fails_the_file() {
    let content = format!(
        "{}1,d,1,2,3,4,5,6\n2,d,1,2,x,4,5,y\nz,d,1,2,3,4,5,6\n",
        HEADER
    );
    assert_eq!(
        read_history_file(content.as_bytes()),
        Err(IngestError::InvalidNumber { record: 1, column: 4 })
    );
}

#[test]
fn record_of_another_width_fails_the_file() {
    let content = format!("{}1,d,1,2,3,4,5,6\n2,d,1,2,3\n3,d,1,2,3,4,5,6\n", HEADER);
    assert_eq!(
        read_history_file(content.as_bytes()),
        Err(IngestError::MalformedRecord { record: 1 })
    );
}

#[test]
fn record_that_is_no_text_fails_the_file() {
    let mut content = Vec::from(HEADER.as_bytes());
    content.extend_from_slice(b"1,d,1,2,3,4,5,6\n2,\xff\xfe,1,2,3,4,5,6\n");
    assert_eq!(
        read_history_file(&content),
        Err(IngestError::MalformedRecord { record: 1 })
    );
}

#[test]
fn earliest_failure_is_the_one_reported() {
    let content = format!("{}1,d,1,2,3,4,5,six\n2,d,1\n", HEADER);
    assert_eq!(
        read_history_file(content.as_bytes()),
        Err(IngestError::InvalidNumber { record: 0, column: 7 })
    );
    let content = format!("{}1,d,1\n2,d,1,2,3,4,5,six\n", HEADER);
    assert_eq!(
        read_history_file(content.as_bytes()),
        Err(IngestError::MalformedRecord { record: 0 })
    );
}

#[test]
fn records_are_read_up_to_the_first_failure() {
    let good = |n: &str| Ok(fields(&[n, "d", "1", "2", "3", "4", "5", "6"]));
    let narrow = Ok(fields(&["1", "d"]));
    assert_eq!(read_records(&Vec::new()), Ok(Vec::new()));
    assert_eq!(
        read_records(&vec![good("7"), narrow, good("8")]),
        Ok(vec![draw(7, "d", [1, 2, 3, 4, 5, 6]), draw(8, "d", [1, 2, 3, 4, 5, 6])])
    );
    assert_eq!(
        read_records(&vec![good("7"), good("x"), good("y")]),
        Err(IngestError::InvalidNumber { record: 1, column: 0 })
    );
}
