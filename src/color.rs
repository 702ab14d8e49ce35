use vstd::prelude::*;

verus! {

/// `s` without the `#` characters it starts with.
pub open spec fn strip_hashes(s: Seq<char>) -> Seq<char>
    decreases s.len(),
{
    if s.len() > 0 && s[0] == '#' {
        strip_hashes(s.drop_first())
    } else {
        s
    }
}

pub open spec fn is_hex_digit(c: char) -> bool {
    ('0' <= c && c <= '9') || ('a' <= c && c <= 'f') || ('A' <= c && c <= 'F')
}

pub open spec fn hex_value(c: char) -> nat {
    if '0' <= c && c <= '9' {
        (c as nat - '0' as nat) as nat
    } else if 'a' <= c && c <= 'f' {
        (c as nat - 'a' as nat + 10) as nat
    } else {
        (c as nat - 'A' as nat + 10) as nat
    }
}

/// A color given as six hex digits after any number of `#`; characters after
/// the sixth digit are ignored.
pub open spec fn is_hex_color(s: Seq<char>) -> bool {
    let t = strip_hashes(s);
    t.len() >= 6 && forall|i: int| 0 <= i < 6 ==> is_hex_digit(#[trigger] t[i])
}

/// The value of the `k`-th pair of hex digits (red, green, blue).
pub open spec fn channel(s: Seq<char>, k: int) -> nat {
    let t = strip_hashes(s);
    hex_value(t[2 * k]) * 16 + hex_value(t[2 * k + 1])
}

pub open spec fn digit_char(d: nat) -> char {
    if d == 0 { '0' } else if d == 1 { '1' } else if d == 2 { '2' } else if d == 3 { '3' }
    else if d == 4 { '4' } else if d == 5 { '5' } else if d == 6 { '6' } else if d == 7 { '7' }
    else if d == 8 { '8' } else { '9' }
}

/// The decimal digits of `n`, without leading zeros.
pub open spec fn decimal(n: nat) -> Seq<char>
    decreases n,
{
    if n < 10 {
        seq![digit_char(n)]
    } else {
        decimal(n / 10) + seq![digit_char(n % 10)]
    }
}

/// The 24-bit foreground escape sequence `ESC[38;2;<r>;<g>;<b>m`.
pub open spec fn ansi_text(r: nat, g: nat, b: nat) -> Seq<char> {
    seq!['\x1b', '[', '3', '8', ';', '2', ';'] + decimal(r) + seq![';'] + decimal(g) + seq![';']
        + decimal(b) + seq!['m']
}

/// The escape sequence of a hex color, or `None` when it is not one.
pub open spec fn ansi_of(hex: Seq<char>) -> Option<Seq<char>> {
    if is_hex_color(hex) {
        Some(ansi_text(channel(hex, 0), channel(hex, 1), channel(hex, 2)))
    } else {
        None
    }
}

/// The key a color is cached under: its digits behind a single `#`.
pub open spec fn cache_key(hex: Seq<char>) -> Seq<char> {
    seq!['#'] + strip_hashes(hex)
}

pub open spec fn opt_text(o: Option<String>) -> Option<Seq<char>> {
    match o {
        Some(s) => Some(s@),
        None => None,
    }
}

/// One lookup in a cache `m`: a cached key answers from the cache, which
/// stays as it is; otherwise the color is parsed, and cached when valid.
pub open spec fn cache_step(m: Map<Seq<char>, Seq<char>>, hex: Seq<char>) -> (Map<
    Seq<char>,
    Seq<char>,
>, Option<Seq<char>>) {
    let key = cache_key(hex);
    if m.contains_key(key) {
        (m, Some(m[key]))
    } else {
        match ansi_of(hex) {
            Some(code) => (m.insert(key, code), Some(code)),
            None => (m, None),
        }
    }
}

fn digit_str(d: u8) -> (r: &'static str)
    requires
        d < 10,
    ensures
        r@ == seq![digit_char(d as nat)],
{
    proof {
        reveal_strlit("0");
        reveal_strlit("1");
        reveal_strlit("2");
        reveal_strlit("3");
        reveal_strlit("4");
        reveal_strlit("5");
        reveal_strlit("6");
        reveal_strlit("7");
        reveal_strlit("8");
        reveal_strlit("9");
    }
    match d {
        0 => "0",
        1 => "1",
        2 => "2",
        3 => "3",
        4 => "4",
        5 => "5",
        6 => "6",
        7 => "7",
        8 => "8",
        _ => "9",
    }
}

/// Appends the decimal digits of `n`.
pub fn push_decimal(out: &mut String, n: u32)
    ensures
        final(out)@ == old(out)@ + decimal(n as nat),
    decreases n,
{
    if n >= 10 {
        push_decimal(out, n / 10);
    }
    out.append(digit_str((n % 10) as u8));
    proof {
        if n < 10 {
            assert(decimal(n as nat) == seq![digit_char(n as nat)]);
        }
        assert(final(out)@ =~= old(out)@ + decimal(n as nat));
    }
}

fn hex_digit_value(c: char) -> (r: Option<u32>)
    ensures
        r is Some <==> is_hex_digit(c),
        r is Some ==> r->0 == hex_value(c),
{
    if '0' <= c && c <= '9' {
        Some(c as u32 - '0' as u32)
    } else if 'a' <= c && c <= 'f' {
        Some(c as u32 - 'a' as u32 + 10)
    } else if 'A' <= c && c <= 'F' {
        Some(c as u32 - 'A' as u32 + 10)
    } else {
        None
    }
}

/// The number of `#` characters that `s` starts with.
fn leading_hashes(s: &str) -> (r: usize)
    ensures
        r <= s@.len(),
        strip_hashes(s@) == s@.subrange(r as int, s@.len() as int),
{
    let n = s.unicode_len();
    let mut i: usize = 0;
    assert(s@.subrange(0, n as int) =~= s@);
    while i < n && s.get_char(i) == '#'
        invariant
            i <= n == s@.len(),
            strip_hashes(s@) == strip_hashes(s@.subrange(i as int, n as int)),
        decreases n - i,
    {
        proof {
            let t = s@.subrange(i as int, n as int);
            assert(t.drop_first() =~= s@.subrange(i + 1, n as int));
        }
        i = i + 1;
    }
    proof {
        let t = s@.subrange(i as int, n as int);
        assert(i == n ==> t.len() == 0);
        assert(s@.subrange(0, n as int) =~= s@);
    }
    i
}

/// The cache key of a color: its digits behind a single `#`.
fn key_of(hex: &str) -> (r: String)
    ensures
        r@ == cache_key(hex@),
{
    let start = leading_hashes(hex);
    let mut key = String::from_str("#");
    proof {
        reveal_strlit("#");
    }
    key.append(hex.substring_char(start, hex.unicode_len()));
    key
}

/// The 24-bit ANSI foreground escape sequence of a color written as six hex
/// digits after any number of `#` (`#ff8000` gives `ESC[38;2;255;128;0m`);
/// `None` when the text is not such a color.
pub fn hex_to_ansi(hex: &str) -> (r: Option<String>)
    ensures
        opt_text(r) == ansi_of(hex@),
{
    let start = leading_hashes(hex);
    let n = hex.unicode_len();
    if n - start < 6 {
        return None;
    }
    let ghost t = strip_hashes(hex@);
    let mut values: Vec<u32> = Vec::new();
    let mut i: usize = 0;
    while i < 6
        invariant
            start + 6 <= n == hex@.len(),
            t == strip_hashes(hex@),
            t == hex@.subrange(start as int, n as int),
            i <= 6,
            values@.len() == i,
            forall|j: int| 0 <= j < i ==> is_hex_digit(#[trigger] t[j]),
            forall|j: int| 0 <= j < i ==> values@[j] == hex_value(#[trigger] t[j]),
        decreases 6 - i,
    {
        match hex_digit_value(hex.get_char(start + i)) {
            Some(v) => values.push(v),
            None => {
                proof {
                    assert(t[i as int] == hex@[start + i]);
                    assert(!is_hex_digit(t[i as int]));
                    assert(!is_hex_color(hex@));
                }
                return None;
            },
        }
        i = i + 1;
    }
    assert(is_hex_color(hex@));
    let red = values[0] * 16 + values[1];
    let green = values[2] * 16 + values[3];
    let blue = values[4] * 16 + values[5];
    let mut out = String::from_str("\x1b[38;2;");
    let semi = ";";
    let tail = "m";
    proof {
        reveal_strlit("\x1b[38;2;");
        reveal_strlit(";");
        reveal_strlit("m");
    }
    push_decimal(&mut out, red);
    out.append(semi);
    push_decimal(&mut out, green);
    out.append(semi);
    push_decimal(&mut out, blue);
    out.append(tail);
    proof {
        assert(out@ =~= ansi_text(channel(hex@, 0), channel(hex@, 1), channel(hex@, 2)));
    }
    Some(out)
}

/// A cache of escape sequences by color, shared by every logging call. Each
/// cached sequence is the one of its key.
pub struct AnsiCache {
    entries: Vec<(String, String)>,
    cached: Ghost<Map<Seq<char>, Seq<char>>>,
}

impl AnsiCache {
    /// What the cache holds: escape sequences by key.
    pub closed spec fn view(&self) -> Map<Seq<char>, Seq<char>> {
        self.cached@
    }

    pub closed spec fn wf(&self) -> bool {
        &&& forall|i: int, j: int|
            0 <= i < j < self.entries@.len() ==> self.entries@[i].0@ != self.entries@[j].0@
        &&& forall|i: int|
            0 <= i < self.entries@.len() ==> self.cached@.contains_key(#[trigger] self.entries@[i].0@)
                && self.cached@[self.entries@[i].0@] == self.entries@[i].1@
        &&& forall|k: Seq<char>|
            #[trigger] self.cached@.contains_key(k) ==> exists|i: int|
                0 <= i < self.entries@.len() && #[trigger] self.entries@[i].0@ == k
        &&& forall|k: Seq<char>|
            #[trigger] self.cached@.contains_key(k) ==> exists|h: Seq<char>|
                cache_key(h) == k && ansi_of(h) == Some(self.cached@[k])
    }

    /// An empty cache.
    pub fn new() -> (r: Self)
        ensures
            r.wf(),
            r.view() == Map::<Seq<char>, Seq<char>>::empty(),
    {
        AnsiCache { entries: Vec::new(), cached: Ghost(Map::empty()) }
    }

    /// The escape sequence of a color, from the cache when it is there (the
    /// text is then not parsed again), else parsed and remembered.
    pub fn lookup(&mut self, hex: &str) -> (r: Option<String>)
        requires
            old(self).wf(),
        ensures
            final(self).wf(),
            (final(self).view(), opt_text(r)) == cache_step(old(self).view(), hex@),
            old(self).view().contains_key(cache_key(hex@)) ==> opt_text(r) == Some(
                old(self).view()[cache_key(hex@)],
            ) && final(self).view() == old(self).view(),
    {
        let key = key_of(hex);
        let mut i: usize = 0;
        while i < self.entries.len()
            invariant
                self.wf(),
                self.cached@ == old(self).cached@,
                self.entries@ == old(self).entries@,
                key@ == cache_key(hex@),
                i <= self.entries@.len(),
                forall|j: int| 0 <= j < i ==> self.entries@[j].0@ != key@,
            decreases self.entries@.len() - i,
        {
            if self.entries[i].0 == key {
                let code = self.entries[i].1.clone();
                proof {
                    assert(self.cached@.contains_key(self.entries@[i as int].0@));
                    assert(self.entries@[i as int].0@ == key@);
                }
                return Some(code);
            }
            i = i + 1;
        }
        proof {
            if self.cached@.contains_key(key@) {
                let j = choose|j: int| 0 <= j < self.entries@.len() && #[trigger] self.entries@[j].0@ == key@;
                assert(self.entries@[j].0@ == key@);
            }
        }
        match hex_to_ansi(hex) {
            Some(code) => {
                let ghost m = self.cached@;
                self.cached = Ghost(m.insert(key@, code@));
                self.entries.push((key, code.clone()));
                proof {
                    let n = self.entries@.len() - 1;
                    assert forall|k: Seq<char>| #[trigger] self.cached@.contains_key(k) implies exists|j: int|
                        0 <= j < self.entries@.len() && #[trigger] self.entries@[j].0@ == k by {
                        if k == self.entries@[n].0@ {
                            assert(self.entries@[n].0@ == k);
                        } else {
                            assert(m.contains_key(k));
                            let j = choose|j: int| 0 <= j < self.entries@.len() - 1 && #[trigger] old(self).entries@[j].0@ == k;
                            assert(self.entries@[j] == old(self).entries@[j]);
                        }
                    }
                    assert forall|k: Seq<char>| #[trigger] self.cached@.contains_key(k) implies exists|h: Seq<char>|
                        cache_key(h) == k && ansi_of(h) == Some(self.cached@[k]) by {
                        if k == key@ {
                            assert(cache_key(hex@) == k);
                        }
                    }
                }
                Some(code)
            },
            None => None,
        }
    }
}

/// Looking a color up twice in a row gives the same answer the second time,
/// from the cache, and the second lookup leaves the cache as the first left it.
pub proof fn lemma_lookup_idempotent(m: Map<Seq<char>, Seq<char>>, hex: Seq<char>)
    ensures
        cache_step(cache_step(m, hex).0, hex) == cache_step(m, hex),
{
}

/// What the cache answers is what parsing the color would give, as long as
/// every cached sequence is the one of its key.
pub proof fn lemma_lookup_transparent(m: Map<Seq<char>, Seq<char>>, hex: Seq<char>)
    requires
        forall|h: Seq<char>| #[trigger] m.contains_key(cache_key(h)) ==> ansi_of(h) == Some(m[cache_key(h)]),
    ensures
        cache_step(m, hex).1 == ansi_of(hex),
{
}

} // verus!
