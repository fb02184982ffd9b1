//! The seed peer table of the node's published README: a section found by
//! its heading, whose table rows name an operator and an address. Rows that
//! do not parse are skipped; only a missing section or a table with no valid
//! row is an error.
use vstd::prelude::*;
use crate::addr::{Ipv4, dotted, parse_ipv4};
use crate::gossip_config::HyperliquidSeedPeer;
use crate::seeds::contains_ip;
use crate::text::{
    contains, contains_text, find_from, is_ws, is_ws_char, lower_of, lowercase, occurs_at, trim,
    trimmed,
};

verus! {

pub open spec fn section_heading() -> Seq<char> {
    "## Mainnet Non-Validator Seed Peers"@
}

/// `needle` occurs at `i` in `hay` and nowhere before.
pub open spec fn first_at(hay: Seq<char>, needle: Seq<char>, i: int) -> bool {
    occurs_at(hay, needle, i) && forall|j: int| 0 <= j < i ==> !occurs_at(hay, needle, j)
}

/// The text after the first occurrence of the section heading, to the end
/// of the document; none when the heading does not occur. The scan of this
/// text (`scan_line`) stops at the first later line that is a heading of
/// level one or two.
pub open spec fn section_of(content: Seq<char>) -> Option<Seq<char>> {
    if exists|i: int| first_at(content, section_heading(), i) {
        let i = choose|i: int| first_at(content, section_heading(), i);
        Some(content.skip(i + section_heading().len()))
    } else {
        None
    }
}

/// How many `#` open the line, up to two.
pub open spec fn heading_marks(line: Seq<char>) -> int {
    if line.len() >= 2 && line[0] == '#' && line[1] == '#' {
        2
    } else if line.len() >= 1 && line[0] == '#' {
        1
    } else {
        0
    }
}

/// The line is a Markdown heading of level one or two: one or two `#`
/// followed by a blank or the end of the line.
pub open spec fn is_top_heading(line: Seq<char>) -> bool {
    let h = heading_marks(line);
    h > 0 && (line.len() == h || line[h] == ' ' || line[h] == '\t' || line[h] == '\r')
}

/// The pieces of `s` between occurrences of `sep` (one more than there are
/// separators).
pub open spec fn split_on(s: Seq<char>, sep: char) -> Seq<Seq<char>>
    decreases s.len(),
{
    if s.len() == 0 {
        seq![seq![]]
    } else {
        let l = split_on(s.drop_last(), sep);
        if s.last() == sep {
            l.push(seq![])
        } else {
            l.update(l.len() - 1, l.last().push(s.last()))
        }
    }
}

/// The trimmed pieces, with the empty ones left out.
pub open spec fn nonempty_trimmed(pieces: Seq<Seq<char>>) -> Seq<Seq<char>>
    decreases pieces.len(),
{
    if pieces.len() == 0 {
        seq![]
    } else {
        let rest = nonempty_trimmed(pieces.drop_last());
        if trim(pieces.last()).len() == 0 {
            rest
        } else {
            rest.push(trim(pieces.last()))
        }
    }
}

/// The cells of a table row.
pub open spec fn cells_of(row: Seq<char>) -> Seq<Seq<char>> {
    nonempty_trimmed(split_on(row, '|'))
}

pub open spec fn is_table_row(t: Seq<char>) -> bool {
    t.len() > 0 && t[0] == '|' && t.last() == '|'
}

pub open spec fn is_separator_row(t: Seq<char>) -> bool {
    forall|k: int| 0 <= k < t.len() ==> t[k] == '|' || t[k] == '-' || is_ws(#[trigger] t[k])
}

/// The first two cells of a row, in lowercase, name the operator and root
/// address columns.
pub open spec fn names_header(first: Seq<char>, second: Seq<char>) -> bool {
    contains_text(first, "operator"@) || contains_text(second, "root"@) || contains_text(
        second,
        "ip"@,
    )
}

pub open spec fn is_header_row(cells: Seq<Seq<char>>) -> bool {
    cells.len() >= 2 && names_header(lower_of(cells[0]), lower_of(cells[1]))
}

/// The address that `s` writes in dotted-quad form, if any.
pub open spec fn ipv4_of(s: Seq<char>) -> Option<Ipv4> {
    if exists|a: Ipv4| dotted(a) == s {
        Some(choose|a: Ipv4| dotted(a) == s)
    } else {
        None
    }
}

/// Where the scan of the table stands after some lines.
pub struct TableScan {
    pub in_table: bool,
    pub header_found: bool,
    /// The table or the section has ended.
    pub done: bool,
    pub peers: Seq<(Seq<char>, Ipv4)>,
}

pub open spec fn scan_start() -> TableScan {
    TableScan { in_table: false, header_found: false, done: false, peers: seq![] }
}

/// The scan after one more line; `line_start` tells whether the line starts
/// a line of the document (the first piece is the rest of the heading's own
/// line).
pub open spec fn scan_line(st: TableScan, line: Seq<char>, ignored: Seq<Ipv4>, line_start: bool) -> TableScan {
    let t = trim(line);
    if st.done {
        st
    } else if line_start && is_top_heading(line) {
        TableScan { done: true, ..st }
    } else if t.len() == 0 {
        st
    } else if is_table_row(t) {
        if is_separator_row(t) {
            TableScan { in_table: true, ..st }
        } else {
            let cells = cells_of(t);
            if !st.header_found && is_header_row(cells) {
                TableScan { in_table: true, header_found: true, ..st }
            } else if st.in_table && st.header_found && cells.len() >= 2 {
                match ipv4_of(cells[1]) {
                    Some(ip) => if ignored.contains(ip) {
                        st
                    } else {
                        TableScan { peers: st.peers.push((cells[0], ip)), ..st }
                    },
                    None => st,
                }
            } else {
                st
            }
        }
    } else if st.in_table {
        TableScan { done: true, ..st }
    } else {
        st
    }
}

pub open spec fn scan_lines(lines: Seq<Seq<char>>, ignored: Seq<Ipv4>) -> TableScan
    decreases lines.len(),
{
    if lines.len() == 0 {
        scan_start()
    } else {
        scan_line(scan_lines(lines.drop_last(), ignored), lines.last(), ignored, lines.len() > 1)
    }
}

/// The peers that the table of `section` lists, in order.
pub open spec fn table_peers(section: Seq<char>, ignored: Seq<Ipv4>) -> Seq<(Seq<char>, Ipv4)> {
    scan_lines(split_on(section, '\n'), ignored).peers
}

/// Why no peer was read from the document.
#[derive(Clone, Copy, Debug, PartialEq, Eq, Structural)]
pub enum TableError {
    /// The seed peer section's heading does not occur.
    SectionMissing,
    /// The section holds no row with a usable address.
    NoValidPeers,
}

/// The peers read from the document, matched one for one with `spec`.
pub open spec fn peers_match(r: Seq<HyperliquidSeedPeer>, spec: Seq<(Seq<char>, Ipv4)>) -> bool {
    &&& r.len() == spec.len()
    &&& forall|k: int| 0 <= k < r.len() ==> (#[trigger] r[k]).operator_name@ == spec[k].0 && r[k].ip == spec[k].1
}

proof fn lemma_split_nonempty(s: Seq<char>, sep: char)
    ensures
        split_on(s, sep).len() >= 1,
    decreases s.len(),
{
    if s.len() > 0 {
        lemma_split_nonempty(s.drop_last(), sep);
    }
}

proof fn lemma_split_step(s: Seq<char>, k: int)
    requires
        0 <= k < s.len(),
    ensures
        s.take(k + 1).drop_last() == s.take(k),
        s.take(k + 1).last() == s[k],
{
    assert(s.take(k + 1).drop_last() =~= s.take(k));
}

/// Splits a row into its cells.
fn row_cells(t: &str) -> (r: Vec<String>)
    ensures
        r@.len() == cells_of(t@).len(),
        forall|k: int| 0 <= k < r@.len() ==> (#[trigger] r@[k])@ == cells_of(t@)[k],
{
    let n = t.unicode_len();
    let mut cells: Vec<String> = Vec::new();
    let mut start: usize = 0;
    let mut k: usize = 0;
    proof {
        assert(t@.take(0) =~= Seq::<char>::empty());
        assert(t@.subrange(0, 0) =~= Seq::<char>::empty());
        assert(split_on(t@.take(0), '|') == seq![Seq::<char>::empty()]);
        assert(split_on(t@.take(0), '|').drop_last() =~= Seq::<Seq<char>>::empty());
        assert(split_on(t@.take(0), '|').drop_last().push(t@.subrange(0, 0)) =~= split_on(t@.take(0), '|'));
    }
    while k < n
        invariant
            n == t@.len(),
            start <= k <= n,
            split_on(t@.take(k as int), '|') == split_on(t@.take(start as int), '|').drop_last().push(
                t@.subrange(start as int, k as int),
            ),
            split_on(t@.take(start as int), '|').last() == Seq::<char>::empty(),
            cells@.len() == nonempty_trimmed(split_on(t@.take(start as int), '|').drop_last()).len(),
            forall|j: int| 0 <= j < cells@.len() ==> (#[trigger] cells@[j])@ == nonempty_trimmed(
                split_on(t@.take(start as int), '|').drop_last(),
            )[j],
        decreases n - k,
    {
        proof {
            lemma_split_step(t@, k as int);
            lemma_split_nonempty(t@.take(k as int), '|');
            lemma_split_nonempty(t@.take(start as int), '|');
        }
        if t.get_char(k) == '|' {
            let piece = trimmed(t.substring_char(start, k));
            let ghost pieces = split_on(t@.take(k + 1), '|').drop_last();
            proof {
                assert(split_on(t@.take(k + 1), '|') == split_on(t@.take(k as int), '|').push(seq![]));
                assert(pieces == split_on(t@.take(k as int), '|'));
                assert(pieces.drop_last() =~= split_on(t@.take(start as int), '|').drop_last());
                assert(pieces.last() == t@.subrange(start as int, k as int));
                assert(split_on(t@.take(k + 1), '|').last() == Seq::<char>::empty());
                assert(t@.subrange(k + 1, k + 1) =~= Seq::<char>::empty());
                assert(split_on(t@.take(k + 1), '|') =~= split_on(t@.take(k + 1), '|').drop_last().push(
                    t@.subrange(k + 1, k + 1)));
            }
            let ghost before = cells@;
            if piece.unicode_len() > 0 {
                cells.push(String::from_str(piece));
                proof {
                    assert forall|j: int| 0 <= j < cells@.len() implies (#[trigger] cells@[j])@ == nonempty_trimmed(pieces)[j] by {
                        if j < before.len() {
                            assert(cells@[j] == before[j]);
                        }
                    }
                }
            }
            start = k + 1;
        } else {
            proof {
                let l = split_on(t@.take(k as int), '|');
                assert(t@.subrange(start as int, k + 1) =~= t@.subrange(start as int, k as int).push(t@[k as int]));
                assert(split_on(t@.take(k + 1), '|') =~= split_on(t@.take(start as int), '|').drop_last().push(
                    t@.subrange(start as int, k + 1),
                ));
            }
        }
        k = k + 1;
    }
    // The last piece runs to the end of the row.
    let piece = trimmed(t.substring_char(start, n));
    let ghost pieces = split_on(t@, '|');
    proof {
        lemma_split_nonempty(t@.take(start as int), '|');
        assert(t@.take(n as int) =~= t@);
        assert(pieces.drop_last() == split_on(t@.take(start as int), '|').drop_last());
        assert(pieces.last() == t@.subrange(start as int, n as int));
    }
    let ghost before = cells@;
    if piece.unicode_len() > 0 {
        cells.push(String::from_str(piece));
        proof {
            assert forall|j: int| 0 <= j < cells@.len() implies (#[trigger] cells@[j])@ == nonempty_trimmed(pieces)[j] by {
                if j < before.len() {
                    assert(cells@[j] == before[j]);
                }
            }
        }
    }
    cells
}

fn separator_row(t: &str) -> (r: bool)
    ensures
        r == is_separator_row(t@),
{
    let n = t.unicode_len();
    let mut k: usize = 0;
    while k < n
        invariant
            n == t@.len(),
            k <= n,
            forall|j: int| 0 <= j < k ==> t@[j] == '|' || t@[j] == '-' || is_ws(#[trigger] t@[j]),
        decreases n - k,
    {
        let c = t.get_char(k);
        if !(c == '|' || c == '-' || is_ws_char(c)) {
            return false;
        }
        k = k + 1;
    }
    true
}

fn top_heading(line: &str) -> (r: bool)
    ensures
        r == is_top_heading(line@),
{
    let n = line.unicode_len();
    if n == 0 || line.get_char(0) != '#' {
        return false;
    }
    let h: usize = if n >= 2 && line.get_char(1) == '#' {
        2
    } else {
        1
    };
    if h == n {
        return true;
    }
    let c = line.get_char(h);
    c == ' ' || c == '\t' || c == '\r'
}

fn header_row(cells: &Vec<String>) -> (r: bool)
    ensures
        r == is_header_row(cells@.map_values(|c: String| c@)),
{
    let ghost cv = cells@.map_values(|c: String| c@);
    if cells.len() < 2 {
        return false;
    }
    assert(cv[0] == cells@[0]@ && cv[1] == cells@[1]@);
    let first = lowercase(cells[0].as_str());
    let second = lowercase(cells[1].as_str());
    header_cells(first.as_str(), second.as_str())
}

/// Whether a row whose first two cells, already in lowercase, are `first`
/// and `second` is the table's header row.
pub fn header_cells(first: &str, second: &str) -> (r: bool)
    ensures
        r == names_header(first@, second@),
{
    contains(first, "operator") || contains(second, "root") || contains(second, "ip")
}

/// The scan state that the executable scan keeps, besides the peers.
struct ScanFlags {
    in_table: bool,
    header_found: bool,
    done: bool,
}

spec fn scan_agrees(flags: ScanFlags, peers: Seq<HyperliquidSeedPeer>, st: TableScan) -> bool {
    &&& flags.in_table == st.in_table
    &&& flags.header_found == st.header_found
    &&& flags.done == st.done
    &&& peers_match(peers, st.peers)
}

fn scan_one_line(
    flags: &mut ScanFlags,
    peers: &mut Vec<HyperliquidSeedPeer>,
    line: &str,
    ignored: &Vec<Ipv4>,
    line_start: bool,
    Ghost(st): Ghost<TableScan>,
)
    requires
        scan_agrees(*old(flags), old(peers)@, st),
    ensures
        scan_agrees(*final(flags), final(peers)@, scan_line(st, line@, ignored@, line_start)),
{
    if flags.done {
        return;
    }
    if line_start && top_heading(line) {
        flags.done = true;
        return;
    }
    let t = trimmed(line);
    let n = t.unicode_len();
    if n == 0 {
        return;
    }
    if t.get_char(0) == '|' && t.get_char(n - 1) == '|' {
        if separator_row(t) {
            flags.in_table = true;
            return;
        }
        let cells = row_cells(t);
        let ghost cv = cells@.map_values(|c: String| c@);
        assert(cv =~= cells_of(t@));
        if !flags.header_found && header_row(&cells) {
            flags.header_found = true;
            flags.in_table = true;
            return;
        }
        if flags.in_table && flags.header_found && cells.len() >= 2 {
            assert(cells@[1]@ == cells_of(t@)[1]);
            match parse_ipv4(cells[1].as_str()) {
                Some(ip) => {
                    proof {
                        assert(dotted(ip) == cells_of(t@)[1]);
                        let b = choose|a: Ipv4| dotted(a) == cells_of(t@)[1];
                        assert(ipv4_of(cells_of(t@)[1]) == Some(b));
                    }
                    if !contains_ip(ignored, ip) {
                        let ghost before = peers@;
                        peers.push(HyperliquidSeedPeer { operator_name: cells[0].clone(), ip });
                        proof {
                            assert(cells@[0]@ == cells_of(t@)[0]);
                            let sp = st.peers.push((cells_of(t@)[0], ip));
                            assert forall|k: int| 0 <= k < peers@.len() implies (#[trigger] peers@[k]).operator_name@ == sp[k].0 && peers@[k].ip == sp[k].1 by {
                                if k < before.len() {
                                    assert(peers@[k] == before[k]);
                                }
                            }
                        }
                    }
                },
                None => {},
            }
        }
    } else if flags.in_table {
        flags.done = true;
    }
}

/// Reads the seed peers from the README's seed peer table, leaving out
/// ignored addresses and rows whose address does not parse.
pub fn parse_seed_peer_table(content: &str, ignored: &Vec<Ipv4>) -> (r: Result<Vec<HyperliquidSeedPeer>, TableError>)
    ensures
        match section_of(content@) {
            None => r == Err::<Vec<HyperliquidSeedPeer>, TableError>(TableError::SectionMissing),
            Some(sec) => if table_peers(sec, ignored@).len() == 0 {
                r == Err::<Vec<HyperliquidSeedPeer>, TableError>(TableError::NoValidPeers)
            } else {
                r matches Ok(p) && peers_match(p@, table_peers(sec, ignored@))
            },
        },
{
    let n = content.unicode_len();
    let heading = "## Mainnet Non-Validator Seed Peers";
    proof {
        reveal_strlit("## Mainnet Non-Validator Seed Peers");
    }
    let found = find_from(content, n, heading, 0);
    let i = match found {
        None => {
            assert(!exists|i: int| first_at(content@, section_heading(), i));
            return Err(TableError::SectionMissing);
        },
        Some(i) => i,
    };
    assert(first_at(content@, section_heading(), i as int));
    let start = i + heading.unicode_len();
    let section = content.substring_char(start, n);
    proof {
        let i2 = choose|i2: int| first_at(content@, section_heading(), i2);
        assert(i2 == i as int);
        assert(section@ =~= content@.skip(start as int));
    }
    let m = section.unicode_len();
    let mut flags = ScanFlags { in_table: false, header_found: false, done: false };
    let mut peers: Vec<HyperliquidSeedPeer> = Vec::new();
    let mut line_start: usize = 0;
    let mut k: usize = 0;
    proof {
        assert(section@.take(0) =~= Seq::<char>::empty());
        assert(section@.subrange(0, 0) =~= Seq::<char>::empty());
        assert(split_on(section@.take(0), '\n').drop_last() =~= Seq::<Seq<char>>::empty());
    }
    while k < m
        invariant
            m == section@.len(),
            line_start <= k <= m,
            split_on(section@.take(k as int), '\n') == split_on(section@.take(line_start as int), '\n').drop_last().push(
                section@.subrange(line_start as int, k as int),
            ),
            split_on(section@.take(line_start as int), '\n').len() >= 1,
            (line_start > 0) == (split_on(section@.take(line_start as int), '\n').drop_last().len() > 0),
            scan_agrees(flags, peers@, scan_lines(split_on(section@.take(line_start as int), '\n').drop_last(), ignored@)),
        decreases m - k,
    {
        proof {
            lemma_split_step(section@, k as int);
            lemma_split_nonempty(section@.take(k as int), '\n');
        }
        if section.get_char(k) == '\n' {
            let line = section.substring_char(line_start, k);
            let ghost lines = split_on(section@.take(line_start as int), '\n').drop_last();
            scan_one_line(&mut flags, &mut peers, line, ignored, line_start > 0, Ghost(scan_lines(lines, ignored@)));
            proof {
                let next = split_on(section@.take(k + 1), '\n');
                assert(next == split_on(section@.take(k as int), '\n').push(seq![]));
                assert(next.drop_last() =~= lines.push(line@));
                assert(lines.push(line@).drop_last() =~= lines);
                assert(section@.subrange(k + 1, k + 1) =~= Seq::<char>::empty());
                assert(next =~= next.drop_last().push(section@.subrange(k + 1, k + 1)));
            }
            line_start = k + 1;
        } else {
            proof {
                assert(section@.subrange(line_start as int, k + 1) =~= section@.subrange(line_start as int, k as int).push(section@[k as int]));
                assert(split_on(section@.take(k + 1), '\n') =~= split_on(section@.take(line_start as int), '\n').drop_last().push(
                    section@.subrange(line_start as int, k + 1),
                ));
            }
        }
        k = k + 1;
    }
    // The last line runs to the end of the section.
    let line = section.substring_char(line_start, m);
    let ghost lines = split_on(section@.take(line_start as int), '\n').drop_last();
    scan_one_line(&mut flags, &mut peers, line, ignored, line_start > 0, Ghost(scan_lines(lines, ignored@)));
    proof {
        assert(section@.take(m as int) =~= section@);
        let all = split_on(section@, '\n');
        assert(all =~= lines.push(line@));
        assert(all.drop_last() =~= lines);
    }
    if peers.len() == 0 {
        return Err(TableError::NoValidPeers);
    }
    Ok(peers)
}

} // verus!
