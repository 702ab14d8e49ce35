use vstd::prelude::*;
use crate::color::is_hex_digit;
use crate::format::{split_on, lemma_split_nonempty};

verus! {

pub open spec fn is_decimal_digit(c: char) -> bool {
    '0' <= c && c <= '9'
}

/// The value of a run of decimal digits.
pub open spec fn digits_value(f: Seq<char>) -> nat
    decreases f.len(),
{
    if f.len() == 0 {
        0
    } else {
        (digits_value(f.drop_last()) * 10 + (f.last() as int - '0' as int)) as nat
    }
}

proof fn lemma_digits_value_bound(f: Seq<char>)
    requires
        forall|i: int| 0 <= i < f.len() ==> is_decimal_digit(#[trigger] f[i]),
    ensures
        f.len() <= 1 ==> digits_value(f) < 10,
        f.len() <= 2 ==> digits_value(f) < 100,
        f.len() <= 3 ==> digits_value(f) < 1000,
    decreases f.len(),
{
    if f.len() > 0 {
        let g = f.drop_last();
        assert forall|i: int| 0 <= i < g.len() implies is_decimal_digit(#[trigger] g[i]) by {
            assert(g[i] == f[i]);
        }
        assert(is_decimal_digit(f[f.len() - 1]));
        lemma_digits_value_bound(g);
    }
}

/// One to three decimal digits worth at most 255, without a leading zero
/// unless the octet is `0` itself.
pub open spec fn is_octet_text(f: Seq<char>) -> bool {
    &&& 1 <= f.len() <= 3
    &&& forall|i: int| 0 <= i < f.len() ==> is_decimal_digit(#[trigger] f[i])
    &&& digits_value(f) <= 255
    &&& !(f.len() > 1 && f[0] == '0')
}

/// Dotted-quad IPv4 notation: four octets separated by dots, nothing else.
pub open spec fn is_ipv4_text(s: Seq<char>) -> bool {
    let pieces = split_on(s, '.');
    pieces.len() == 4 && forall|j: int| 0 <= j < 4 ==> is_octet_text(#[trigger] pieces[j])
}

/// Whether `ip` is an IPv4 address in dotted-quad notation (`192.168.0.1`).
pub fn is_valid_ipv4(ip: &str) -> (r: bool)
    ensures
        r == is_ipv4_text(ip@),
{
    let n = ip.unicode_len();
    let mut i: usize = 0;
    let mut count: usize = 0;
    let mut prior_ok = true;
    let mut cur_len: usize = 0;
    let mut cur_digits = true;
    let mut cur_value: u32 = 0;
    let mut cur_lead_zero = false;
    assert(split_on(ip@.subrange(0, 0), '.') =~= seq![Seq::<char>::empty()]);
    while i < n
        invariant
            i <= n == ip@.len(),
            count <= i,
            cur_len <= i,
            split_on(ip@.subrange(0, i as int), '.').len() == count + 1,
            prior_ok == (forall|j: int|
                0 <= j < count ==> is_octet_text(#[trigger] split_on(ip@.subrange(0, i as int), '.')[j])),
            cur_len == split_on(ip@.subrange(0, i as int), '.').last().len(),
            cur_digits == (forall|k: int|
                0 <= k < cur_len ==> is_decimal_digit(#[trigger] split_on(ip@.subrange(0, i as int), '.').last()[k])),
            cur_digits && cur_len <= 3 ==> cur_value == digits_value(
                split_on(ip@.subrange(0, i as int), '.').last(),
            ) && cur_value < 1000,
            cur_lead_zero == (cur_len > 0 && split_on(ip@.subrange(0, i as int), '.').last()[0] == '0'),
        decreases n - i,
    {
        let c = ip.get_char(i);
        let ghost before = split_on(ip@.subrange(0, i as int), '.');
        proof {
            lemma_split_nonempty(ip@.subrange(0, i as int), '.');
            assert(ip@.subrange(0, i + 1).drop_last() =~= ip@.subrange(0, i as int));
            assert(ip@.subrange(0, i + 1).last() == c);
        }
        if c == '.' {
            let cur_ok = cur_digits && 1 <= cur_len && cur_len <= 3 && cur_value <= 255 && !(cur_len > 1
                && cur_lead_zero);
            proof {
                assert(cur_ok == is_octet_text(before.last()));
                let after = split_on(ip@.subrange(0, i + 1), '.');
                assert(after == before.push(Seq::<char>::empty()));
                assert(forall|j: int| 0 <= j < count ==> after[j] == before[j]);
                assert(after[count as int] == before.last());
            }
            prior_ok = prior_ok && cur_ok;
            count = count + 1;
            cur_len = 0;
            cur_digits = true;
            cur_value = 0;
            cur_lead_zero = false;
        } else {
            let d = is_decimal_digit_char(c);
            if cur_len == 0 {
                cur_lead_zero = c == '0';
            }
            proof {
                if cur_digits {
                    lemma_digits_value_bound(before.last());
                }
            }
            if cur_digits && d && cur_len < 3 {
                cur_value = cur_value * 10 + (c as u32 - '0' as u32);
            }
            cur_digits = cur_digits && d;
            proof {
                let after = split_on(ip@.subrange(0, i + 1), '.');
                let cur = before.last();
                let nc = cur.push(c);
                assert(after == before.update(count as int, nc));
                assert(nc.drop_last() =~= cur);
                assert(forall|j: int| 0 <= j < count ==> after[j] == before[j]);
                assert(after.last() == nc);
                assert(nc.last() == c);
                if cur_len > 0 {
                    assert(nc[0] == cur[0]);
                }
                if (forall|k: int| 0 <= k < nc.len() ==> is_decimal_digit(#[trigger] nc[k])) {
                    assert(is_decimal_digit(nc[cur.len() as int]));
                    assert forall|k: int| 0 <= k < cur.len() implies is_decimal_digit(#[trigger] cur[k]) by {
                        assert(nc[k] == cur[k]);
                    }
                } else if (forall|k: int| 0 <= k < cur.len() ==> is_decimal_digit(#[trigger] cur[k])) && d {
                    assert forall|k: int| 0 <= k < nc.len() implies is_decimal_digit(#[trigger] nc[k]) by {
                        if k < cur.len() {
                            assert(nc[k] == cur[k]);
                        }
                    }
                }
            }
            cur_len = cur_len + 1;
        }
        i = i + 1;
    }
    proof {
        assert(ip@.subrange(0, n as int) =~= ip@);
    }
    let last_ok = cur_digits && 1 <= cur_len && cur_len <= 3 && cur_value <= 255 && !(cur_len > 1
        && cur_lead_zero);
    proof {
        let pieces = split_on(ip@, '.');
        if count == 3 {
            assert(last_ok == is_octet_text(pieces[3]));
            if prior_ok && last_ok {
                assert forall|j: int| 0 <= j < 4 implies is_octet_text(#[trigger] pieces[j]) by {
                    if j < 3 {
                        assert(is_octet_text(pieces[j]));
                    }
                }
            }
            if !prior_ok {
                let j = choose|j: int| 0 <= j < 3 && !is_octet_text(#[trigger] pieces[j]);
                assert(!is_octet_text(pieces[j]));
            }
        }
    }
    prior_ok && count == 3 && last_ok
}

fn is_decimal_digit_char(c: char) -> (r: bool)
    ensures
        r == is_decimal_digit(c),
{
    '0' <= c && c <= '9'
}

/// One to four hex digits.
pub open spec fn is_hex_group(f: Seq<char>) -> bool {
    1 <= f.len() <= 4 && forall|i: int| 0 <= i < f.len() ==> is_hex_digit(#[trigger] f[i])
}

pub open spec fn all_groups(pieces: Seq<Seq<char>>) -> bool {
    forall|j: int| 0 <= j < pieces.len() ==> is_hex_group(#[trigger] pieces[j])
}

/// Hex groups, the last piece excepted, which is a dotted quad.
pub open spec fn groups_then_v4(pieces: Seq<Seq<char>>) -> bool {
    &&& pieces.len() >= 1
    &&& forall|j: int| 0 <= j < pieces.len() - 1 ==> is_hex_group(#[trigger] pieces[j])
    &&& is_ipv4_text(pieces.last())
}

/// The part before `::`: empty, or hex groups separated by colons.
pub open spec fn head_ok(h: Seq<char>) -> bool {
    h.len() == 0 || all_groups(split_on(h, ':'))
}

pub open spec fn head_slots(h: Seq<char>) -> nat {
    if h.len() == 0 {
        0
    } else {
        split_on(h, ':').len()
    }
}

/// The part after `::`: empty, or hex groups of which the last may be a
/// dotted quad.
pub open spec fn tail_ok(t: Seq<char>) -> bool {
    t.len() == 0 || all_groups(split_on(t, ':')) || groups_then_v4(split_on(t, ':'))
}

/// How many of the eight 16-bit groups the part after `::` fills; a dotted
/// quad fills two.
pub open spec fn tail_slots(t: Seq<char>) -> nat {
    if t.len() == 0 {
        0
    } else if all_groups(split_on(t, ':')) {
        split_on(t, ':').len()
    } else {
        split_on(t, ':').len() + 1
    }
}

pub open spec fn double_colon_at(s: Seq<char>, i: int) -> bool {
    0 <= i && i + 1 < s.len() && s[i] == ':' && s[i + 1] == ':'
}

pub open spec fn first_double_colon_at(s: Seq<char>, i: int) -> bool {
    double_colon_at(s, i) && forall|j: int| 0 <= j < i ==> !#[trigger] double_colon_at(s, j)
}

/// IPv6 text notation: eight hex groups, or six and a dotted quad; or, with
/// the first `::` standing for a run of zero groups, hex groups before it and
/// after it (the last of them possibly a dotted quad, worth two), filling at
/// most seven of the eight.
pub open spec fn is_ipv6_text(s: Seq<char>) -> bool {
    if exists|i: int| double_colon_at(s, i) {
        let p = choose|i: int| first_double_colon_at(s, i);
        let h = s.subrange(0, p);
        let t = s.subrange(p + 2, s.len() as int);
        head_ok(h) && tail_ok(t) && head_slots(h) + tail_slots(t) <= 7
    } else {
        let pieces = split_on(s, ':');
        (pieces.len() == 8 && all_groups(pieces)) || (pieces.len() == 7 && groups_then_v4(pieces))
    }
}

fn is_hex_digit_char(c: char) -> (r: bool)
    ensures
        r == is_hex_digit(c),
{
    ('0' <= c && c <= '9') || ('a' <= c && c <= 'f') || ('A' <= c && c <= 'F')
}

/// Where the first `::` of `s` starts, if anywhere.
fn find_double_colon(s: &str) -> (r: Option<usize>)
    ensures
        r is None ==> forall|i: int| !#[trigger] double_colon_at(s@, i),
        r is Some ==> first_double_colon_at(s@, r->0 as int),
{
    let n = s.unicode_len();
    if n == 0 {
        return None;
    }
    let mut i: usize = 0;
    while i < n - 1
        invariant
            1 <= n == s@.len(),
            forall|j: int| 0 <= j < i ==> !#[trigger] double_colon_at(s@, j),
        decreases n - i,
    {
        if s.get_char(i) == ':' && s.get_char(i + 1) == ':' {
            return Some(i);
        }
        i = i + 1;
    }
    None
}

/// The colon-separated pieces of `s`: how many colons separate them, whether all are hex groups,
/// and whether all but the last are, the last being a dotted quad.
fn scan_pieces(s: &str) -> (r: (usize, bool, bool))
    ensures
        r.0 + 1 == split_on(s@, ':').len(),
        r.1 == all_groups(split_on(s@, ':')),
        r.2 == groups_then_v4(split_on(s@, ':')),
{
    let n = s.unicode_len();
    let mut i: usize = 0;
    let mut count: usize = 0;
    let mut prior_ok = true;
    let mut start: usize = 0;
    let mut cur_hex = true;
    assert(split_on(s@.subrange(0, 0), ':') =~= seq![Seq::<char>::empty()]);
    assert(s@.subrange(0, 0) =~= Seq::<char>::empty());
    while i < n
        invariant
            i <= n == s@.len(),
            count <= i,
            start <= i,
            split_on(s@.subrange(0, i as int), ':').len() == count + 1,
            split_on(s@.subrange(0, i as int), ':').last() == s@.subrange(start as int, i as int),
            prior_ok == (forall|j: int|
                0 <= j < count ==> is_hex_group(#[trigger] split_on(s@.subrange(0, i as int), ':')[j])),
            cur_hex == (forall|k: int| start <= k < i ==> is_hex_digit(#[trigger] s@[k])),
        decreases n - i,
    {
        let c = s.get_char(i);
        let ghost before = split_on(s@.subrange(0, i as int), ':');
        proof {
            lemma_split_nonempty(s@.subrange(0, i as int), ':');
            assert(s@.subrange(0, i + 1).drop_last() =~= s@.subrange(0, i as int));
            assert(s@.subrange(0, i + 1).last() == c);
        }
        if c == ':' {
            let cur_ok = cur_hex && 1 <= i - start && i - start <= 4;
            proof {
                let cur = s@.subrange(start as int, i as int);
                if cur_hex {
                    assert forall|k: int| 0 <= k < cur.len() implies is_hex_digit(#[trigger] cur[k]) by {
                        assert(cur[k] == s@[start + k]);
                    }
                } else {
                    let k = choose|k: int| start <= k < i && !is_hex_digit(#[trigger] s@[k]);
                    assert(cur[k - start] == s@[k]);
                }
                assert(cur_ok == is_hex_group(before.last()));
                let after = split_on(s@.subrange(0, i + 1), ':');
                assert(after == before.push(Seq::<char>::empty()));
                assert(forall|j: int| 0 <= j < count ==> after[j] == before[j]);
                assert(after[count as int] == before.last());
                assert(s@.subrange(i + 1, i + 1) =~= Seq::<char>::empty());
            }
            prior_ok = prior_ok && cur_ok;
            count = count + 1;
            start = i + 1;
            cur_hex = true;
        } else {
            cur_hex = cur_hex && is_hex_digit_char(c);
            proof {
                let after = split_on(s@.subrange(0, i + 1), ':');
                let cur = before.last();
                assert(after == before.update(count as int, cur.push(c)));
                assert(forall|j: int| 0 <= j < count ==> after[j] == before[j]);
                assert(cur.push(c) =~= s@.subrange(start as int, i + 1));
            }
        }
        i = i + 1;
    }
    proof {
        assert(s@.subrange(0, n as int) =~= s@);
        lemma_split_nonempty(s@, ':');
    }
    let last_group = cur_hex && 1 <= n - start && n - start <= 4;
    let last = s.substring_char(start, n);
    let last_v4 = is_valid_ipv4(last);
    proof {
        let pieces = split_on(s@, ':');
        let cur = s@.subrange(start as int, n as int);
        assert(pieces.last() == cur);
        if cur_hex {
            assert forall|k: int| 0 <= k < cur.len() implies is_hex_digit(#[trigger] cur[k]) by {
                assert(cur[k] == s@[start + k]);
            }
        } else {
            let k = choose|k: int| start <= k < n && !is_hex_digit(#[trigger] s@[k]);
            assert(cur[k - start] == s@[k]);
        }
        assert(last_group == is_hex_group(cur));
        if prior_ok && last_group {
            assert forall|j: int| 0 <= j < pieces.len() implies is_hex_group(#[trigger] pieces[j]) by {
                if j < count {
                    assert(is_hex_group(pieces[j]));
                }
            }
        }
        if !prior_ok {
            let j = choose|j: int| 0 <= j < count && !is_hex_group(#[trigger] pieces[j]);
            assert(!is_hex_group(pieces[j]));
        }
        if !last_group {
            assert(!is_hex_group(pieces[count as int]));
        }
    }
    (count, prior_ok && last_group, prior_ok && last_v4)
}

/// Whether `ip` is an IPv6 address in text notation (`::1`, `fe80::1:2`,
/// `::ffff:192.0.2.1`).
pub fn is_valid_ipv6(ip: &str) -> (r: bool)
    ensures
        r == is_ipv6_text(ip@),
{
    let n = ip.unicode_len();
    match find_double_colon(ip) {
        None => {
            let (k, groups, v4) = scan_pieces(ip);
            (k == 7 && groups) || (k == 6 && v4)
        },
        Some(p) => {
            proof {
                assert(double_colon_at(ip@, p as int));
                let c = choose|i: int| first_double_colon_at(ip@, i);
                assert(first_double_colon_at(ip@, c));
                if c < p {
                    assert(double_colon_at(ip@, c));
                } else if c > p {
                    assert(!double_colon_at(ip@, p as int));
                }
                assert(c == p);
            }
            let head = ip.substring_char(0, p);
            let tail = ip.substring_char(p + 2, n);
            let (hk, hg, _) = scan_pieces(head);
            let (tk, tg, tv) = scan_pieces(tail);
            let head_ok = p == 0 || hg;
            if !head_ok || (p > 0 && hk > 6) {
                return false;
            }
            let head_slots: usize = if p == 0 {
                0
            } else {
                hk + 1
            };
            if p + 2 == n {
                true
            } else if tg {
                tk < 7 - head_slots
            } else if tv {
                head_slots < 6 && tk < 6 - head_slots
            } else {
                false
            }
        },
    }
}

/// Whether `ip` is an IPv4 or an IPv6 address.
pub fn is_valid_ip(ip: &str) -> (r: bool)
    ensures
        r == (is_ipv4_text(ip@) || is_ipv6_text(ip@)),
{
    is_valid_ipv4(ip) || is_valid_ipv6(ip)
}

/// Whether a text parses as an absolute URL; a property of the text alone.
pub uninterp spec fn url_parses(s: Seq<char>) -> bool;

/// Whether `url` is an absolute URL. Relies on `url::Url::parse`: the WHATWG
/// URL parser, which succeeds or fails on the text alone.
#[verifier::external_body]
pub fn is_valid_url(url: &str) -> (r: bool)
    ensures
        r == url_parses(url@),
{
    url::Url::parse(url).is_ok()
}

} // verus!
