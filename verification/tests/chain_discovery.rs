use blockchain::backward_discovery::discover_backward;
use blockchain::forward_discovery::discover_forward;
use blockchain::height_index::{BlockRecord, DiscoveryError, HeightIndex};
use blockchain::report::ChainReport;

fn rec(name: &str, parent: &str) -> BlockRecord {
    BlockRecord {
        name: name.to_string(),
        parent_hash: parent.to_string(),
    }
}

fn linear_chain(n: u32) -> Vec<BlockRecord> {
    let mut records = Vec::new();
    for h in 0..n {
        let name = format!("mainnet-{h}-3Nh{h}.json");
        let parent = if h == 0 {
            "3Ngenesis".to_string()
        } else {
            format!("3Nh{}", h - 1)
        };
        records.push(rec(&name, &parent));
    }
    records
}

fn names(ix: &HeightIndex, indices: &[usize]) -> Vec<String> {
    indices.iter().map(|&i| ix.block(i).name.clone()).collect()
}

#[test]
fn empty_input_fails() {
    match HeightIndex::build(Vec::new()) {
        Err(DiscoveryError::EmptyInput) => {}
        _ => panic!("empty input must fail with EmptyInput"),
    }
}

#[test]
fn scenario_linear_forward() {
    let ix = HeightIndex::build(linear_chain(15)).unwrap();
    let d = discover_forward(&ix, 10).unwrap();
    let canonical = names(&ix, &d.canonical);
    let expected: Vec<String> = (0..15).map(|h| format!("mainnet-{h}-3Nh{h}.json")).collect();
    assert_eq!(canonical, expected);
    assert!(d.successive.is_empty());
}

#[test]
fn scenario_linear_backward() {
    let ix = HeightIndex::build(linear_chain(15)).unwrap();
    let d = discover_backward(&ix, 10).unwrap();
    let canonical = names(&ix, &d.canonical);
    let expected: Vec<String> = (0..5).map(|h| format!("mainnet-{h}-3Nh{h}.json")).collect();
    assert_eq!(canonical, expected);
    let successive = names(&ix, &d.successive);
    let expected_succ: Vec<String> = (5..15).map(|h| format!("mainnet-{h}-3Nh{h}.json")).collect();
    assert_eq!(successive, expected_succ);
    // The two lists share no file name.
    for name in &canonical {
        assert!(!successive.contains(name));
    }
}

#[test]
fn scenario_fork_forward() {
    let mut records = linear_chain(15);
    // A competing block at height 7 claiming the same parent, never extended.
    records.push(rec("mainnet-7-3Nbad.json", "3Nh6"));
    let ix = HeightIndex::build(records).unwrap();
    let d = discover_forward(&ix, 10).unwrap();
    let canonical = names(&ix, &d.canonical);
    let expected: Vec<String> = (0..15).map(|h| format!("mainnet-{h}-3Nh{h}.json")).collect();
    assert_eq!(canonical, expected);
    // The orphaned fork block appears in neither list.
    assert!(d.successive.is_empty());
}

#[test]
fn scenario_fork_backward() {
    let mut records = linear_chain(15);
    records.push(rec("mainnet-7-3Nbad.json", "3Nh6"));
    let ix = HeightIndex::build(records).unwrap();
    let d = discover_backward(&ix, 10).unwrap();
    let canonical = names(&ix, &d.canonical);
    let expected: Vec<String> = (0..5).map(|h| format!("mainnet-{h}-3Nh{h}.json")).collect();
    assert_eq!(canonical, expected);
    // The walk never records the orphan: the canonical chain holds one
    // block per height.
    assert!(!canonical.contains(&"mainnet-7-3Nbad.json".to_string()));
}

#[test]
fn scenario_short_chain() {
    let ix = HeightIndex::build(linear_chain(5)).unwrap();
    match discover_backward(&ix, 10) {
        Err(DiscoveryError::LowConfidence) => {}
        _ => panic!("five blocks cannot anchor a depth-ten walk"),
    }
    let d = discover_forward(&ix, 10).unwrap();
    assert!(d.canonical.is_empty());
    let successive = names(&ix, &d.successive);
    let expected: Vec<String> = (0..5).map(|h| format!("mainnet-{h}-3Nh{h}.json")).collect();
    assert_eq!(successive, expected);
}

#[test]
fn scenario_indeterminate_height() {
    let mut records = linear_chain(15);
    records.push(rec("mainnet-foo-3Nbar.json", "3Nnothing"));
    let ix = HeightIndex::build(records).unwrap();
    // The block with no parseable height sorts to the end of the order.
    assert_eq!(ix.block(15).name, "mainnet-foo-3Nbar.json");
    assert_eq!(ix.block(15).height, None);

    let d = discover_forward(&ix, 10).unwrap();
    let canonical = names(&ix, &d.canonical);
    assert!(!canonical.contains(&"mainnet-foo-3Nbar.json".to_string()));
    let successive = names(&ix, &d.successive);
    assert_eq!(successive, vec!["mainnet-foo-3Nbar.json".to_string()]);

    // The backward walk skips the indeterminate tail group for its tip and
    // keeps only determinate heights in the successive set.
    let b = discover_backward(&ix, 10).unwrap();
    let b_succ = names(&ix, &b.successive);
    assert!(!b_succ.contains(&"mainnet-foo-3Nbar.json".to_string()));
    assert_eq!(b_succ.len(), 10);
}

#[test]
fn broken_link_backward() {
    let mut records = linear_chain(11);
    // A tip whose parent hash matches no block below it.
    records.push(rec("mainnet-11-3Nh11.json", "3Nelsewhere"));
    let ix = HeightIndex::build(records).unwrap();
    match discover_backward(&ix, 10) {
        Err(DiscoveryError::ParentLinkNotFound) => {}
        _ => panic!("a broken parent link must be reported"),
    }
}

#[test]
fn low_confidence_gap() {
    // Heights 0..=4 and 6..=15: the run near the start breaks at 5.
    let mut records = Vec::new();
    for h in (0..5).chain(6..16) {
        let parent = format!("3Nh{}", h.max(1) - 1);
        records.push(rec(&format!("mainnet-{h}-3Nh{h}.json"), &parent));
    }
    let ix = HeightIndex::build(records).unwrap();
    match discover_backward(&ix, 10) {
        Err(DiscoveryError::LowConfidence) => {}
        _ => panic!("a gap in the low heights must fail the confidence check"),
    }
}

#[test]
fn report_renders_lines() {
    let ix = HeightIndex::build(linear_chain(15)).unwrap();
    let d = discover_backward(&ix, 10).unwrap();
    let report = ChainReport::from_discovery(&ix, &d);
    let text = report.render();
    let mut expected = String::new();
    for h in 0..15 {
        expected.push_str(&format!("mainnet-{h}-3Nh{h}.json\n"));
    }
    // Canonical then successive covers every block exactly once, in height
    // order.
    assert_eq!(text, expected);
}
