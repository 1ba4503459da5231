use blockchain::block_file::{extract_parent_hash, parse_height, parse_state_hash, ParentHashError};
use blockchain::numerals::render_u32;
use blockchain::padding::{pad_height, unpad_height};
use blockchain::queries::{
    contiguous_query_lines, mainnet_wildcard_query, query_start, MinaBlockQuery,
    MinaMainnetBlock, MinaMainnetBlockQuery,
};
use blockchain::version::Version;

#[test]
fn height_from_name() {
    assert_eq!(parse_height("mainnet-100-3Nabc.json"), Some(100));
    assert_eq!(parse_height("net-5-7-3N.json"), Some(7));
    assert_eq!(parse_height("foo.json"), None);
    assert_eq!(parse_height("mainnet-4294967296-3N.json"), None);
    assert_eq!(parse_height("mainnet-4294967295-3N.json"), Some(4294967295));
}

#[test]
fn state_hash_from_name() {
    assert_eq!(
        parse_state_hash("mainnet-100-3Nabc.json"),
        Some("3Nabc".to_string())
    );
    assert_eq!(parse_state_hash("mainnet-100-Qabc.json"), None);
    assert_eq!(parse_state_hash("m-1-3Na.b.json"), None);
    assert_eq!(
        parse_state_hash("mainnet-100-3Nabc"),
        Some("3Nabc".to_string())
    );
    assert_eq!(parse_state_hash("mainnet-100-.json"), None);
}

#[test]
fn parent_hash_from_content() {
    let mut content = vec![b'x'; 75];
    let hash: Vec<u8> = (0..52).map(|i| b'A' + (i % 26) as u8).collect();
    content.extend_from_slice(&hash);
    let parsed = extract_parent_hash(&content).unwrap();
    assert_eq!(parsed.as_bytes(), &hash[..]);

    let short = vec![b'x'; 126];
    assert_eq!(extract_parent_hash(&short), Err(ParentHashError::Io));

    let mut bad = content.clone();
    bad[80] = 0xff;
    assert_eq!(extract_parent_hash(&bad), Err(ParentHashError::Decode));
}

#[test]
fn pad_and_unpad() {
    assert_eq!(
        pad_height("mainnet-42-3Nabc.json"),
        "mainnet-000042-3Nabc.json"
    );
    assert_eq!(
        pad_height("mainnet-123456-3Nabc.json"),
        "mainnet-123456-3Nabc.json"
    );
    // Fields after the height are joined without separators, as the
    // original reassembly does.
    assert_eq!(pad_height("a-5-c-d"), "a-000005-cd");
    assert_eq!(pad_height("nodash"), "nodash");

    assert_eq!(
        unpad_height("mainnet-000042-3Nabc.json"),
        "mainnet-42-3Nabc.json"
    );
    assert_eq!(unpad_height("a-000005-c-d"), "a-5-c-d");
    assert_eq!(unpad_height("mainnet-000000-x.json"), "mainnet--x.json");
    assert_eq!(unpad_height("nodash"), "nodash");
}

#[test]
fn pad_round_trip() {
    let name = "mainnet-42-3Nabc.json";
    assert_eq!(unpad_height(&pad_height(name)), name);
}

#[test]
fn query_round_trip() {
    let line = "gs://bucket/net-42-3Nhash.json";
    let q = MinaBlockQuery::parse(line).unwrap();
    assert_eq!(q.bucket, "bucket");
    assert_eq!(q.network, "net");
    assert_eq!(q.length, 42);
    assert_eq!(q.state_hash, "3Nhash");
    assert_eq!(q.to_string(), line);

    assert!(MinaBlockQuery::parse("http://bucket/net-42-3N.json").is_none());
    assert!(MinaBlockQuery::parse("gs://bucketonly").is_none());
}

#[test]
fn mainnet_query_round_trip() {
    let line = "gs://mina_network_block_data/mainnet-77-3Nxyz.json";
    let q = MinaMainnetBlockQuery::parse(line).unwrap();
    assert_eq!(q.length, 77);
    assert_eq!(q.state_hash, "3Nxyz");
    assert_eq!(q.to_string(), line);

    assert!(MinaMainnetBlockQuery::parse("gs://other_bucket/mainnet-77-3N.json").is_none());
}

#[test]
fn mainnet_block_length() {
    assert_eq!(
        MinaMainnetBlock::parse("mainnet-123-3Nabc.json"),
        Some(MinaMainnetBlock { length: 123 })
    );
    assert!(MinaMainnetBlock::parse("devnet-123-3Nabc.json").is_none());
}

#[test]
fn decimal_rendering() {
    assert_eq!(render_u32(0), "0");
    assert_eq!(render_u32(7), "7");
    assert_eq!(render_u32(1234567), "1234567");
    assert_eq!(render_u32(u32::MAX), "4294967295");
}

#[test]
fn decimal_parsing() {
    assert_eq!(Version::from_decimal("000123"), Some(Version::new(123)));
    assert_eq!(Version::from_decimal("+7"), Some(Version::new(7)));
    assert_eq!(Version::from_decimal(""), None);
    assert_eq!(Version::from_decimal("12a"), None);
    assert_eq!(Version::from_decimal("4294967296"), None);
    assert_eq!(
        Version::from_decimal("4294967295"),
        Some(Version::new(4294967295))
    );
}

#[test]
fn wildcard_query_lines() {
    assert_eq!(
        mainnet_wildcard_query(42),
        "gs://mina_network_block_data/mainnet-42-*.json"
    );
    let lines = contiguous_query_lines(2, 3);
    assert_eq!(
        lines,
        vec![
            "gs://mina_network_block_data/mainnet-2-*.json".to_string(),
            "gs://mina_network_block_data/mainnet-3-*.json".to_string(),
            "gs://mina_network_block_data/mainnet-4-*.json".to_string(),
        ]
    );
}

#[test]
fn query_start_selection() {
    // Strict mode starts just above the known maximum, but never below two.
    assert_eq!(query_start(true, None, 10, 100), 101);
    assert_eq!(query_start(true, None, 10, 0), 2);
    // An explicit start wins.
    assert_eq!(query_start(false, Some(77), 10, 100), 77);
    // Otherwise one buffer below the maximum, but never below two.
    assert_eq!(query_start(false, None, 10, 100), 90);
    assert_eq!(query_start(false, None, 10, 5), 2);
    assert_eq!(query_start(false, None, 10, 11), 2);
}
