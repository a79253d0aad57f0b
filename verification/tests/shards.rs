use barm_worker::shard::{extract_shard_index, shard_file_name, shard_number_of};
use barm_worker::text::{parse_u32, split_on};

#[test]
fn shard_index_is_read_from_a_key() {
    assert_eq!(
        extract_shard_index("barm/model/llama/weights/shard-001"),
        Some("001".to_string())
    );
    assert_eq!(extract_shard_index("shard-7"), Some("7".to_string()));
    assert_eq!(extract_shard_index("shard-001\n"), Some("001".to_string()));
    assert_eq!(extract_shard_index("shard-0123456"), Some("0123456".to_string()));
    assert_eq!(extract_shard_index("shard-012.safetensors"), Some("012".to_string()));
}

#[test]
fn shard_index_comes_from_the_last_occurrence() {
    assert_eq!(
        extract_shard_index("barm/model/shard-9/weights/shard-003"),
        Some("003".to_string())
    );
    assert_eq!(extract_shard_index("shard-shard-4"), Some("4".to_string()));
    assert_eq!(extract_shard_index("shard-5/shard-x"), None);
}

#[test]
fn key_without_a_shard_has_no_index() {
    assert_eq!(extract_shard_index(""), None);
    assert_eq!(extract_shard_index("barm/model/llama/weights/part-001"), None);
    assert_eq!(extract_shard_index("shard-"), None);
    assert_eq!(extract_shard_index("shard-x1"), None);
    assert_eq!(extract_shard_index("Shard-1"), None);
    assert_eq!(extract_shard_index("shard-\u{661}"), None);
}

#[test]
fn index_text_names_a_number() {
    assert_eq!(shard_number_of("001"), 1);
    assert_eq!(shard_number_of("0"), 0);
    assert_eq!(shard_number_of("4294967295"), u32::MAX);
    assert_eq!(shard_number_of("4294967296"), 0);
    assert_eq!(shard_number_of("x"), 0);
    assert_eq!(shard_number_of(""), 0);
}

#[test]
fn numbers_are_read_as_the_standard_library_reads_them() {
    for text in [
        "", "+", "-", "0", "00", "+0", "+12", "-0", "-1", "1_000", " 1", "1 ", "4294967295",
        "4294967296", "00000000000000000001", "99999999999999999999999", "1a", "\u{661}", "++1",
    ] {
        assert_eq!(parse_u32(text), text.parse::<u32>().ok(), "{:?}", text);
    }
}

#[test]
fn texts_are_split_as_the_standard_library_splits_them() {
    for text in ["", "-", "a", "a-b", "-a-", "a--b", "\u{e9}-\u{1f600}"] {
        let expected: Vec<String> = text.split('-').map(|s| s.to_string()).collect();
        assert_eq!(split_on(text, '-'), expected);
    }
}

#[test]
fn shard_files_are_numbered_in_three_digits() {
    assert_eq!(shard_file_name(0), "shard-000.safetensors");
    assert_eq!(shard_file_name(1), "shard-001.safetensors");
    assert_eq!(shard_file_name(42), "shard-042.safetensors");
    assert_eq!(shard_file_name(999), "shard-999.safetensors");
    assert_eq!(shard_file_name(1000), "shard-1000.safetensors");
    assert_eq!(shard_file_name(u32::MAX), "shard-4294967295.safetensors");
}

#[test]
fn published_shards_are_identified() {
    for n in [0u32, 1, 9, 10, 99, 100, 999, 1000, 123456, u32::MAX] {
        let key = format!("barm/model/m/weights/shard-{:03}", n);
        let index = extract_shard_index(&key).unwrap();
        assert_eq!(index, format!("{:03}", n));
        assert_eq!(shard_number_of(&index), n);
    }
}

#[test]
fn shard_files_are_distinct() {
    let mut names: Vec<String> = (0..2000u32).map(shard_file_name).collect();
    names.sort();
    names.dedup();
    assert_eq!(names.len(), 2000);
}
