use hl_bootstrap::addr::Ipv4;
use hl_bootstrap::seed_table::{header_cells, parse_seed_peer_table, TableError};

const README: &str = "# Node\n\nSome intro.\n\n## Mainnet Non-Validator Seed Peers\n\nThe following peers are known:\n\n| Operator | Root IP |\n|----------|---------|\n| Alpha | 1.2.3.4 |\n| Beta | not-an-ip |\n| Gamma | 5.6.7.8 |\n|  Delta  |  9.10.11.12  |\n\nAfter the table.\n| Late | 13.14.15.16 |\n\n## Testnet\n\n| Operator | Root IP |\n|---|---|\n| Zeta | 20.20.20.20 |\n";

#[test]
fn reads_rows_of_the_section_table() {
    let peers = parse_seed_peer_table(README, &vec![]).unwrap();
    let got: Vec<(String, Ipv4)> = peers.into_iter().map(|p| (p.operator_name, p.ip)).collect();
    assert_eq!(
        got,
        vec![
            ("Alpha".to_string(), Ipv4(1, 2, 3, 4)),
            ("Gamma".to_string(), Ipv4(5, 6, 7, 8)),
            ("Delta".to_string(), Ipv4(9, 10, 11, 12)),
        ]
    );
}

#[test]
fn leaves_out_ignored_addresses() {
    let peers = parse_seed_peer_table(README, &vec![Ipv4(5, 6, 7, 8)]).unwrap();
    assert_eq!(peers.len(), 2);
    assert_eq!(peers[1].operator_name, "Delta");
}

#[test]
fn missing_section_is_an_error() {
    let doc = "# Node\n\n## Testnet\n| Operator | Root IP |\n| A | 1.1.1.1 |\n";
    assert_eq!(parse_seed_peer_table(doc, &vec![]).unwrap_err(), TableError::SectionMissing);
}

#[test]
fn table_without_valid_rows_is_an_error() {
    let doc = "## Mainnet Non-Validator Seed Peers\n| Operator | Root IP |\n|---|---|\n| A | 999.1.1.1 |\n| B |\n";
    assert_eq!(parse_seed_peer_table(doc, &vec![]).unwrap_err(), TableError::NoValidPeers);
    let all_ignored = "## Mainnet Non-Validator Seed Peers\n| Operator | Root IP |\n| A | 1.1.1.1 |\n";
    assert_eq!(parse_seed_peer_table(all_ignored, &vec![Ipv4(1, 1, 1, 1)]).unwrap_err(), TableError::NoValidPeers);
}

#[test]
fn rows_before_a_header_are_not_data() {
    let doc = "## Mainnet Non-Validator Seed Peers\n| A | 1.1.1.1 |\n| Name | Root address |\n| B | 2.2.2.2 |\r\n";
    let peers = parse_seed_peer_table(doc, &vec![]).unwrap();
    assert_eq!(peers.len(), 1);
    assert_eq!(peers[0].operator_name, "B");
    assert_eq!(peers[0].ip, Ipv4(2, 2, 2, 2));
}

#[test]
fn header_words_match_in_any_case() {
    let doc = "## Mainnet Non-Validator Seed Peers\n| OPERATOR NAME | Address |\n| C | 3.3.3.3 |";
    let peers = parse_seed_peer_table(doc, &vec![]).unwrap();
    assert_eq!(peers.len(), 1);
    assert_eq!(peers[0].ip, Ipv4(3, 3, 3, 3));
}

#[test]
fn subsection_headings_stay_in_the_section() {
    let doc = "## Mainnet Non-Validator Seed Peers\n### Details\n| Operator | Root IP |\n| A | 1.1.1.1 |\n";
    let peers = parse_seed_peer_table(doc, &vec![]).unwrap();
    assert_eq!(peers.len(), 1);
    assert_eq!(peers[0].ip, Ipv4(1, 1, 1, 1));
}

#[test]
fn next_top_heading_ends_the_section() {
    let doc = "## Mainnet Non-Validator Seed Peers\n## Other\n| Operator | Root IP |\n| A | 1.1.1.1 |\n";
    assert_eq!(parse_seed_peer_table(doc, &vec![]).unwrap_err(), TableError::NoValidPeers);
    let doc = "## Mainnet Non-Validator Seed Peers\n# Top\n| Operator | Root IP |\n| A | 1.1.1.1 |\n";
    assert_eq!(parse_seed_peer_table(doc, &vec![]).unwrap_err(), TableError::NoValidPeers);
}

#[test]
fn marks_inside_a_line_do_not_end_the_section() {
    let doc = "## Mainnet Non-Validator Seed Peers\n| Operator | Root IP ## |\n| A ## x | 1.1.1.1 |\n";
    let peers = parse_seed_peer_table(doc, &vec![]).unwrap();
    assert_eq!(peers.len(), 1);
    assert_eq!(peers[0].operator_name, "A ## x");
}

#[test]
fn header_rule_on_lowercased_cells() {
    assert!(header_cells("operator", "root ip"));
    assert!(header_cells("name", "ip address"));
    assert!(header_cells("name", "root"));
    assert!(!header_cells("alpha", "1.2.3.4"));
    assert!(!header_cells("Operator", "Address"));
}
