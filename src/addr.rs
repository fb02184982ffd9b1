//! IPv4 addresses in dotted-quad notation.
use vstd::prelude::*;

verus! {

/// An IPv4 address, held as its four octets in network order.
#[derive(Clone, Copy, Debug, PartialEq, Eq, Hash, Structural)]
pub struct Ipv4(pub u8, pub u8, pub u8, pub u8);

pub open spec fn is_digit(c: char) -> bool {
    '0' <= c && c <= '9'
}

pub open spec fn digit_value(c: char) -> nat {
    (c as int - '0' as int) as nat
}

/// The decimal digit for `d`, with `d < 10`.
pub open spec fn digit(d: nat) -> char {
    (d + '0' as nat) as char
}

/// The decimal notation of an octet, without leading zeros.
pub open spec fn decimal(v: nat) -> Seq<char> {
    if v < 10 {
        seq![digit(v)]
    } else if v < 100 {
        seq![digit(v / 10), digit(v % 10)]
    } else {
        seq![digit(v / 100), digit((v / 10) % 10), digit(v % 10)]
    }
}

/// The canonical dotted-quad text of an address, such as `10.0.12.255`.
pub open spec fn dotted(a: Ipv4) -> Seq<char> {
    decimal(a.0 as nat) + seq!['.'] + decimal(a.1 as nat) + seq!['.'] + decimal(a.2 as nat)
        + seq!['.'] + decimal(a.3 as nat)
}

/// `s` holds the decimal text of `v` at position `i`, followed by the end
/// of `s` or by a character that is not a digit.
pub open spec fn octet_at(s: Seq<char>, i: int, v: nat) -> bool {
    let e = i + decimal(v).len();
    &&& 0 <= i
    &&& e <= s.len()
    &&& s.subrange(i, e) == decimal(v)
    &&& (e == s.len() || !is_digit(s[e]))
}

proof fn lemma_decimal_digits(v: nat)
    requires
        v < 256,
    ensures
        1 <= decimal(v).len() <= 3,
        forall|k: int| 0 <= k < decimal(v).len() ==> is_digit(#[trigger] decimal(v)[k]),
        decimal(v).len() == 1 <==> v < 10,
        decimal(v).len() == 2 <==> 10 <= v < 100,
        decimal(v).len() >= 2 ==> decimal(v)[0] != '0',
        decimal(v).len() == 1 ==> digit_value(decimal(v)[0]) == v,
        decimal(v).len() == 2 ==> 10 * digit_value(decimal(v)[0]) + digit_value(decimal(v)[1])
            == v,
        decimal(v).len() == 3 ==> 100 * digit_value(decimal(v)[0]) + 10 * digit_value(
            decimal(v)[1],
        ) + digit_value(decimal(v)[2]) == v,
{
}

fn is_digit_char(c: char) -> (r: bool)
    ensures
        r == is_digit(c),
{
    '0' <= c && c <= '9'
}

fn digit_of(c: char) -> (r: u8)
    requires
        is_digit(c),
    ensures
        r as nat == digit_value(c),
        r < 10,
{
    ((c as u32) - ('0' as u32)) as u8
}

/// Reads the octet written at position `start` of `s`.
fn read_octet(s: &str, n: usize, start: usize) -> (r: Option<(u8, usize)>)
    requires
        n == s@.len(),
        start <= n,
    ensures
        r matches Some((v, e)) ==> octet_at(s@, start as int, v as nat) && e == start
            + decimal(v as nat).len(),
        forall|w: u8| #[trigger]
            octet_at(s@, start as int, w as nat) ==> r == Some((w, (start + decimal(w as nat).len()) as usize)),
{
    let mut len: usize = 0;
    while len < 4 && start + len < n && is_digit_char(s.get_char(start + len))
        invariant
            n == s@.len(),
            start <= n,
            len <= 4,
            start + len <= n,
            forall|k: int| start <= k < start + len ==> is_digit(#[trigger] s@[k]),
        decreases 4 - len,
    {
        len = len + 1;
    }
    // The run of digits ends at `start + len`, unless it is longer than three.
    assert(len == 4 || start + len == n || !is_digit(s@[start + len]));
    proof {
        assert forall|w: u8| #[trigger] octet_at(s@, start as int, w as nat) implies decimal(
            w as nat,
        ).len() == len by {
            lemma_decimal_digits(w as nat);
            let d = decimal(w as nat);
            let e = start + d.len();
            assert(forall|k: int| start <= k < e ==> s@[k] == d[k - start]);
            if len < d.len() {
                assert(is_digit(d[len as int]));
                assert(s@[start + len] == d[len as int]);
            }
            if len > d.len() {
                assert(is_digit(s@[e]));
            }
        }
    }
    if len == 0 || len > 3 {
        return None;
    }
    let c0 = s.get_char(start);
    let d0 = digit_of(c0);
    if len == 1 {
        let v = d0;
        proof {
            lemma_decimal_digits(v as nat);
            assert(s@.subrange(start as int, start + 1) =~= decimal(v as nat));
            assert forall|w: u8| #[trigger] octet_at(s@, start as int, w as nat) implies w == v by {
                lemma_decimal_digits(w as nat);
                assert(s@.subrange(start as int, start + 1)[0] == s@[start as int]);
            }
        }
        return Some((v, start + 1));
    }
    if d0 == 0 {
        proof {
            assert forall|w: u8| !(#[trigger] octet_at(s@, start as int, w as nat)) by {
                lemma_decimal_digits(w as nat);
                if octet_at(s@, start as int, w as nat) {
                    assert(s@.subrange(start as int, start + decimal(w as nat).len())[0] == s@[start as int]);
                }
            }
        }
        return None;
    }
    let d1 = digit_of(s.get_char(start + 1));
    if len == 2 {
        let v: u8 = 10 * d0 + d1;
        proof {
            lemma_decimal_digits(v as nat);
            let sub = s@.subrange(start as int, start + 2);
            assert(sub =~= decimal(v as nat)) by {
                assert(sub[0] == s@[start as int]);
                assert(sub[1] == s@[start + 1]);
                assert(digit(v as nat / 10) == c0);
            }
            assert forall|w: u8| #[trigger] octet_at(s@, start as int, w as nat) implies w == v by {
                lemma_decimal_digits(w as nat);
                let sw = s@.subrange(start as int, start + 2);
                assert(sw[0] == s@[start as int]);
                assert(sw[1] == s@[start + 1]);
            }
        }
        return Some((v, start + 2));
    }
    let d2 = digit_of(s.get_char(start + 2));
    let value: u32 = 100 * (d0 as u32) + 10 * (d1 as u32) + (d2 as u32);
    if value > 255 {
        proof {
            assert forall|w: u8| !(#[trigger] octet_at(s@, start as int, w as nat)) by {
                lemma_decimal_digits(w as nat);
                if octet_at(s@, start as int, w as nat) {
                    let sw = s@.subrange(start as int, start + 3);
                    assert(sw[0] == s@[start as int]);
                    assert(sw[1] == s@[start + 1]);
                    assert(sw[2] == s@[start + 2]);
                }
            }
        }
        return None;
    }
    let v = value as u8;
    proof {
        lemma_decimal_digits(v as nat);
        let sub = s@.subrange(start as int, start + 3);
        assert(sub =~= decimal(v as nat)) by {
            assert(sub[0] == s@[start as int]);
            assert(sub[1] == s@[start + 1]);
            assert(sub[2] == s@[start + 2]);
        }
        assert forall|w: u8| #[trigger] octet_at(s@, start as int, w as nat) implies w == v by {
            lemma_decimal_digits(w as nat);
            let sw = s@.subrange(start as int, start + 3);
            assert(sw[0] == s@[start as int]);
            assert(sw[1] == s@[start + 1]);
            assert(sw[2] == s@[start + 2]);
        }
    }
    Some((v, start + 3))
}


/// The `k`-th octet of `a`, for `k < 4`.
pub open spec fn octet_of(a: Ipv4, k: int) -> nat {
    if k == 0 {
        a.0 as nat
    } else if k == 1 {
        a.1 as nat
    } else if k == 2 {
        a.2 as nat
    } else {
        a.3 as nat
    }
}

/// Where the `k`-th octet of `a` ends in `dotted(a)`.
pub open spec fn octet_end(a: Ipv4, k: nat) -> int
    decreases k,
{
    if k == 0 {
        decimal(a.0 as nat).len() as int
    } else {
        octet_end(a, (k - 1) as nat) + 1 + decimal(octet_of(a, k as int)).len()
    }
}

pub open spec fn octet_start(a: Ipv4, k: nat) -> int {
    if k == 0 {
        0
    } else {
        octet_end(a, (k - 1) as nat) + 1
    }
}

proof fn lemma_dotted_layout(a: Ipv4)
    ensures
        forall|k: nat| k < 4 ==> #[trigger] octet_at(dotted(a), octet_start(a, k), octet_of(a, k as int)),
        forall|k: nat| k < 3 ==> dotted(a)[#[trigger] octet_end(a, k)] == '.',
        dotted(a).len() == octet_end(a, 3),
{
    let d0 = decimal(a.0 as nat);
    let d1 = decimal(a.1 as nat);
    let d2 = decimal(a.2 as nat);
    let d3 = decimal(a.3 as nat);
    lemma_decimal_digits(a.0 as nat);
    lemma_decimal_digits(a.1 as nat);
    lemma_decimal_digits(a.2 as nat);
    lemma_decimal_digits(a.3 as nat);
    let s = dotted(a);
    let e0 = d0.len() as int;
    let e1 = e0 + 1 + d1.len();
    let e2 = e1 + 1 + d2.len();
    let e3 = e2 + 1 + d3.len();
    assert(octet_end(a, 0) == e0);
    assert(octet_end(a, 1) == e1);
    assert(octet_end(a, 2) == e2);
    assert(octet_end(a, 3) == e3);
    assert(s.subrange(0, e0) =~= d0);
    assert(s.subrange(e0 + 1, e1) =~= d1);
    assert(s.subrange(e1 + 1, e2) =~= d2);
    assert(s.subrange(e2 + 1, e3) =~= d3);
    assert(s[e0] == '.');
    assert(s[e1] == '.');
    assert(s[e2] == '.');
    assert forall|k: nat| k < 4 implies #[trigger] octet_at(s, octet_start(a, k), octet_of(a, k as int)) by {
        assert(k == 0 || k == 1 || k == 2 || k == 3);
    }
}

/// Parses dotted-quad text: four octets in decimal without leading zeros,
/// separated by dots, and nothing else.
pub fn parse_ipv4(s: &str) -> (r: Option<Ipv4>)
    ensures
        r matches Some(a) ==> s@ == dotted(a),
        forall|a: Ipv4| #[trigger] dotted(a) == s@ ==> r == Some(a),
{
    proof {
        assert forall|a: Ipv4| #[trigger] dotted(a) == s@ implies true by {
            lemma_dotted_layout(a);
        }
    }
    let n = s.unicode_len();
    let mut octets: Vec<u8> = Vec::new();
    let mut pos: usize = 0;
    let ghost mut starts: Seq<int> = seq![];
    while octets.len() < 4
        invariant
            n == s@.len(),
            pos <= n,
            octets.len() <= 4,
            starts.len() == octets.len(),
            forall|k: int| 0 <= k < octets.len() ==> #[trigger] octet_at(s@, starts[k], octets@[k] as nat),
            forall|k: int| 0 <= k < octets.len() ==> starts[k] >= 0,
            octets.len() > 0 ==> starts[0] == 0,
            forall|k: int| 0 < k < octets.len() ==> #[trigger] starts[k] == starts[k - 1] + decimal(octets@[k - 1] as nat).len() + 1,
            forall|k: int| 0 < k < octets.len() ==> 0 < #[trigger] starts[k] <= n && s@[starts[k] - 1] == '.',
            octets.len() == 0 ==> pos == 0,
            0 < octets.len() < 4 ==> pos == starts[octets.len() - 1] + decimal(octets@[octets.len() - 1] as nat).len() + 1 && s@[pos - 1] == '.',
            octets.len() == 4 ==> pos == starts[3] + decimal(octets@[3] as nat).len(),
            forall|a: Ipv4| #[trigger] dotted(a) == s@ ==> {
                &&& forall|k: int| 0 <= k < octets.len() ==> octets@[k] as nat == octet_of(a, k)
                &&& pos == if octets.len() == 4 { octet_end(a, 3) } else { octet_start(a, octets.len() as nat) }
            },
        decreases 4 - octets.len(),
    {
        let ghost start = pos as int;
        match read_octet(s, n, pos) {
            None => {
                proof {
                    assert forall|a: Ipv4| dotted(a) == s@ implies false by {
                        lemma_dotted_layout(a);
                        assert(octet_at(s@, octet_start(a, octets.len() as nat), octet_of(a, octets.len() as int)));
                    }
                }
                return None;
            },
            Some((v, e)) => {
                proof {
                    assert forall|a: Ipv4| #[trigger] dotted(a) == s@ implies v as nat == octet_of(a, octets.len() as int) by {
                        lemma_dotted_layout(a);
                        assert(octet_at(s@, octet_start(a, octets.len() as nat), octet_of(a, octets.len() as int)));
                    }
                }
                octets.push(v);
                proof { starts = starts.push(start); }
                pos = e;
            },
        }
        if octets.len() < 4 {
            if pos >= n || s.get_char(pos) != '.' {
                proof {
                    assert forall|a: Ipv4| dotted(a) == s@ implies false by {
                        lemma_dotted_layout(a);
                        assert(pos == octet_end(a, (octets.len() - 1) as nat));
                    }
                }
                return None;
            }
            pos = pos + 1;
        }
    }
    if pos != n {
        proof {
            assert forall|a: Ipv4| dotted(a) == s@ implies false by {
                lemma_dotted_layout(a);
            }
        }
        return None;
    }
    let a = Ipv4(octets[0], octets[1], octets[2], octets[3]);
    proof {
        assert(octet_at(s@, starts[0], octets@[0] as nat));
        assert(octet_at(s@, starts[1], octets@[1] as nat));
        assert(octet_at(s@, starts[2], octets@[2] as nat));
        assert(octet_at(s@, starts[3], octets@[3] as nat));
        assert(starts[1] == starts[0] + decimal(octets@[0] as nat).len() + 1);
        assert(starts[2] == starts[1] + decimal(octets@[1] as nat).len() + 1);
        assert(starts[3] == starts[2] + decimal(octets@[2] as nat).len() + 1);
        let e0 = starts[1] - 1;
        let e1 = starts[2] - 1;
        let e2 = starts[3] - 1;
        assert(s@.subrange(0, e0) == decimal(a.0 as nat));
        assert(s@.subrange(starts[1], e1) == decimal(a.1 as nat));
        assert(s@.subrange(starts[2], e2) == decimal(a.2 as nat));
        assert(s@.subrange(starts[3], n as int) == decimal(a.3 as nat));
        assert(s@ =~= dotted(a));
        assert forall|b: Ipv4| #[trigger] dotted(b) == s@ implies b == a by {
            assert(octets@[0] as nat == octet_of(b, 0));
            assert(octets@[1] as nat == octet_of(b, 1));
            assert(octets@[2] as nat == octet_of(b, 2));
            assert(octets@[3] as nat == octet_of(b, 3));
        }
    }
    Some(a)
}

} // verus!
