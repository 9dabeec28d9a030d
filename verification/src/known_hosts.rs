//! Client known-hosts pins: one line per `host port spki_sha256_hex`.

use vstd::prelude::*;

use crate::encoding;
use crate::encoding::{hex_encode, parse_u16, push_decimal};
use crate::error::CoreError;
use crate::text;
use crate::text::{
    line_message, lowercase_chars, split_lines, split_whitespace, str_chars, string_from_chars,
    string_push, string_push_str, trim_brackets_chars, trim_chars,
};

verus! {

/// First line of a saved known-hosts file.
pub const KNOWN_HOSTS_HEADER: &'static str = "# sao known_hosts: host port spki_sha256_hex";

/// Strict lexicographic order of texts by code point (the order of `String`).
pub open spec fn text_lt(a: Seq<char>, b: Seq<char>) -> bool
    decreases a.len(),
{
    if a.len() == 0 {
        b.len() > 0
    } else if b.len() == 0 {
        false
    } else if (a[0] as u32) < (b[0] as u32) {
        true
    } else if a[0] == b[0] {
        text_lt(a.drop_first(), b.drop_first())
    } else {
        false
    }
}

/// The order of `(host, port)` keys: by host, then by port.
pub open spec fn key_lt(a: (Seq<char>, u16), b: (Seq<char>, u16)) -> bool {
    text_lt(a.0, b.0) || (a.0 == b.0 && a.1 < b.1)
}

/// The key of an entry.
pub open spec fn entry_key(e: (Seq<char>, u16, Seq<u8>)) -> (Seq<char>, u16) {
    (e.0, e.1)
}

/// Entries listed in strictly increasing key order.
pub open spec fn sorted_keys(es: Seq<(Seq<char>, u16, Seq<u8>)>) -> bool {
    forall|i: int, j: int| 0 <= i < j < es.len() ==> key_lt(entry_key(es[i]), entry_key(es[j]))
}

/// The pins the entries `es` hold, later entries winning.
pub open spec fn entries_map(es: Seq<(Seq<char>, u16, Seq<u8>)>) -> Map<(Seq<char>, u16), Seq<u8>>
    decreases es.len(),
{
    if es.len() == 0 {
        Map::empty()
    } else {
        entries_map(es.drop_last()).insert(entry_key(es.last()), es.last().2)
    }
}

/// No text comes before itself.
pub proof fn lemma_text_lt_irreflexive(a: Seq<char>)
    ensures
        !text_lt(a, a),
    decreases a.len(),
{
    if a.len() > 0 {
        lemma_text_lt_irreflexive(a.drop_first());
    }
}

/// The order of texts is transitive.
pub proof fn lemma_text_lt_transitive(a: Seq<char>, b: Seq<char>, c: Seq<char>)
    requires
        text_lt(a, b),
        text_lt(b, c),
    ensures
        text_lt(a, c),
    decreases a.len(),
{
    if a.len() > 0 && b.len() > 0 && c.len() > 0 && a[0] == b[0] && b[0] == c[0] {
        lemma_text_lt_transitive(a.drop_first(), b.drop_first(), c.drop_first());
    }
}

/// Of two texts, one comes first or they are equal.
pub proof fn lemma_text_lt_total(a: Seq<char>, b: Seq<char>)
    ensures
        text_lt(a, b) || a == b || text_lt(b, a),
    decreases a.len(),
{
    if a.len() > 0 && b.len() > 0 {
        vstd::utf8::char_u32_cast(a[0], a[0] as u32);
        vstd::utf8::char_u32_cast(b[0], b[0] as u32);
    }
    if a.len() == 0 {
        if b.len() == 0 {
            assert(a =~= b);
        }
    } else if b.len() > 0 && a[0] == b[0] {
        lemma_text_lt_total(a.drop_first(), b.drop_first());
        if a.drop_first() == b.drop_first() {
            assert(a.drop_first().len() == a.len() - 1);
            assert(b.drop_first().len() == b.len() - 1);
            assert(a.len() == b.len());
            assert(a =~= b) by {
                assert forall|i: int| 0 <= i < a.len() implies a[i] == b[i] by {
                    if i > 0 {
                        assert(a[i] == a.drop_first()[i - 1]);
                        assert(b[i] == b.drop_first()[i - 1]);
                    }
                }
            }
        }
    }
}

/// The order of `(host, port)` keys is a strict total order.
pub proof fn lemma_key_lt_order(a: (Seq<char>, u16), b: (Seq<char>, u16), c: (Seq<char>, u16))
    ensures
        !key_lt(a, a),
        key_lt(a, b) && key_lt(b, c) ==> key_lt(a, c),
        key_lt(a, b) || a == b || key_lt(b, a),
        key_lt(a, b) ==> !key_lt(b, a),
{
    lemma_text_lt_irreflexive(a.0);
    lemma_text_lt_total(a.0, b.0);
    if text_lt(a.0, b.0) && text_lt(b.0, a.0) {
        lemma_text_lt_transitive(a.0, b.0, a.0);
    }
    if text_lt(a.0, b.0) && text_lt(b.0, c.0) {
        lemma_text_lt_transitive(a.0, b.0, c.0);
    }
}

/// In entries with distinct keys, the pins are exactly the entries.
pub proof fn lemma_entries_map(es: Seq<(Seq<char>, u16, Seq<u8>)>)
    requires
        forall|i: int, j: int|
            0 <= i < j < es.len() ==> entry_key(#[trigger] es[i]) != entry_key(#[trigger] es[j]),
    ensures
        forall|k: (Seq<char>, u16)|
            entries_map(es).contains_key(k) <==> exists|i: int|
                0 <= i < es.len() && entry_key(#[trigger] es[i]) == k,
        forall|i: int| 0 <= i < es.len() ==> entries_map(es)[entry_key(#[trigger] es[i])] == es[i].2,
    decreases es.len(),
{
    if es.len() > 0 {
        let init = es.drop_last();
        lemma_entries_map(init);
        assert forall|k: (Seq<char>, u16)|
            entries_map(es).contains_key(k) <==> exists|i: int|
                0 <= i < es.len() && entry_key(#[trigger] es[i]) == k by {
            if entries_map(es).contains_key(k) {
                if k == entry_key(es.last()) {
                    assert(entry_key(es[es.len() - 1]) == k);
                } else {
                    assert(entries_map(init).contains_key(k));
                    let i = choose|i: int| 0 <= i < init.len() && entry_key(#[trigger] init[i]) == k;
                    assert(es[i] == init[i]);
                }
            }
            if exists|i: int| 0 <= i < es.len() && entry_key(#[trigger] es[i]) == k {
                let i = choose|i: int| 0 <= i < es.len() && entry_key(#[trigger] es[i]) == k;
                if i < es.len() - 1 {
                    assert(init[i] == es[i]);
                }
            }
        }
        assert forall|i: int| 0 <= i < es.len() implies entries_map(es)[entry_key(
            #[trigger] es[i],
        )] == es[i].2 by {
            if i < es.len() - 1 {
                assert(init[i] == es[i]);
            }
        }
    }
}

/// Pinned SPKI SHA-256 fingerprints by `(host, port)`.
#[derive(Debug, Clone)]
pub struct KnownHosts {
    /// `(normalized host, port, SPKI SHA-256)`, in increasing `(host, port)` order.
    pins: Vec<(String, u16, [u8; 32])>,
}

impl KnownHosts {
    /// The pins as `(host, port, fingerprint)`, in increasing `(host, port)` order.
    pub closed spec fn entries(&self) -> Seq<(Seq<char>, u16, Seq<u8>)> {
        self.pins@.map_values(|e: (String, u16, [u8; 32])| (e.0@, e.1, e.2@))
    }

    /// Well-formedness: the entries are sorted by strictly increasing key.
    pub closed spec fn wf(&self) -> bool {
        sorted_keys(self.entries())
    }

    /// The entries of a well-formed value are sorted by key, and they are what
    /// the map of pins holds.
    pub proof fn lemma_entries(&self)
        requires
            self.wf(),
        ensures
            sorted_keys(self.entries()),
            self@ == entries_map(self.entries()),
            forall|i: int| 0 <= i < self.entries().len() ==> (#[trigger] self.entries()[i]).2.len() == 32,
    {
        assert forall|i: int| 0 <= i < self.entries().len() implies (
        #[trigger] self.entries()[i]).2.len() == 32 by {
            assert(self.entries()[i].2 == self.pins@[i].2@);
        }
    }
}

/// Whether `a` comes before `b` in the order of texts.
fn text_less(a: &[char], b: &[char]) -> (r: bool)
    ensures
        r == text_lt(a@, b@),
{
    let mut i: usize = 0;
    assert(a@.skip(0) =~= a@);
    assert(b@.skip(0) =~= b@);
    loop
        invariant
            i <= a@.len(),
            i <= b@.len(),
            text_lt(a@, b@) == text_lt(a@.skip(i as int), b@.skip(i as int)),
        decreases a@.len() - i,
    {
        if i == a.len() {
            assert(a@.skip(i as int).len() == 0);
            return i < b.len();
        }
        if i == b.len() {
            assert(b@.skip(i as int).len() == 0);
            return false;
        }
        let ghost sa = a@.skip(i as int);
        let ghost sb = b@.skip(i as int);
        assert(sa[0] == a@[i as int]);
        assert(sb[0] == b@[i as int]);
        if (a[i] as u32) < (b[i] as u32) {
            return true;
        }
        if a[i] != b[i] {
            return false;
        }
        assert(sa.drop_first() =~= a@.skip(i + 1));
        assert(sb.drop_first() =~= b@.skip(i + 1));
        i = i + 1;
    }
}

/// Whether the key `(h1, p1)` comes before `(h2, p2)`.
fn key_less(h1: &[char], p1: u16, h2: &[char], p2: u16) -> (r: bool)
    ensures
        r == key_lt((h1@, p1), (h2@, p2)),
{
    text_less(h1, h2) || (text::chars_eq(h1, h2) && p1 < p2)
}

impl KnownHosts {
    /// The position of the key `(host, port)` in the sorted entries, and
    /// whether an entry with that key is there.
    fn slot(&self, host: &[char], port: u16) -> (r: (usize, bool))
        requires
            self.wf(),
        ensures
            r.0 <= self.entries().len(),
            forall|i: int| 0 <= i < r.0 ==> key_lt(entry_key(#[trigger] self.entries()[i]), (host@, port)),
            r.0 < self.entries().len() ==> !key_lt(entry_key(self.entries()[r.0 as int]), (host@, port)),
            r.1 <==> (r.0 < self.entries().len() && entry_key(self.entries()[r.0 as int]) == (host@, port)),
    {
        let mut i: usize = 0;
        while i < self.pins.len()
            invariant
                i <= self.entries().len(),
                self.entries().len() == self.pins@.len(),
                forall|j: int| 0 <= j < i ==> key_lt(entry_key(#[trigger] self.entries()[j]), (host@, port)),
            decreases self.pins@.len() - i,
        {
            let h = str_chars(self.pins[i].0.as_str());
            assert(self.entries()[i as int] == (self.pins@[i as int].0@, self.pins@[i as int].1, self.pins@[i as int].2@));
            if !key_less(&h, self.pins[i].1, host, port) {
                let found = text::chars_eq(&h, host) && self.pins[i].1 == port;
                return (i, found);
            }
            i = i + 1;
        }
        (i, false)
    }

    /// Sets the pin of `(host, port)` to `fp`.
    fn insert_entry(&mut self, host: &[char], port: u16, fp: [u8; 32])
        requires
            old(self).wf(),
        ensures
            final(self).wf(),
            final(self)@ == old(self)@.insert((host@, port), fp@),
    {
        let ghost es = self.entries();
        let ghost k = (host@, port);
        let (p, found) = self.slot(host, port);
        let e = (string_from_chars(host), port, fp);
        let ghost ev = (host@, port, fp@);
        proof {
            self.lemma_entries();
        }
        if found {
            self.pins.set(p, e);
            assert(self.entries() =~= es.update(p as int, ev));
        } else {
            self.pins.insert(p, e);
            assert(self.entries() =~= es.insert(p as int, ev));
        }
        let ghost es2 = self.entries();
        assert(sorted_keys(es2)) by {
            assert forall|i: int, j: int| 0 <= i < j < es2.len() implies key_lt(
                entry_key(es2[i]),
                entry_key(es2[j]),
            ) by {
                if found {
                    if i == p {
                        assert(entry_key(es2[i]) == entry_key(es[i]));
                    }
                    if j == p {
                        assert(entry_key(es2[j]) == entry_key(es[j]));
                    }
                } else {
                    if p < es.len() {
                        lemma_key_lt_order(k, entry_key(es[p as int]), k);
                        lemma_key_lt_order(entry_key(es[p as int]), k, k);
                    }
                    if j == p {
                        assert(key_lt(entry_key(es[i]), k));
                    } else if i == p {
                        assert(j - 1 >= p);
                        if j - 1 > p {
                            lemma_key_lt_order(k, entry_key(es[p as int]), entry_key(es[j - 1]));
                        }
                    } else if i < p && j > p {
                        assert(key_lt(entry_key(es[i]), k));
                        if p < es.len() {
                            assert(key_lt(k, entry_key(es[p as int])));
                            lemma_key_lt_order(entry_key(es[i]), k, entry_key(es[p as int]));
                            if j - 1 > p {
                                lemma_key_lt_order(
                                    entry_key(es[i]),
                                    entry_key(es[p as int]),
                                    entry_key(es[j - 1]),
                                );
                            }
                        }
                    } else if i > p {
                        assert(es2[i] == es[i - 1]);
                        assert(es2[j] == es[j - 1]);
                    }
                }
            }
        }
        proof {
            assert forall|i: int, j: int| 0 <= i < j < es.len() implies entry_key(#[trigger] es[i])
                != entry_key(#[trigger] es[j]) by {
                lemma_key_lt_order(entry_key(es[i]), entry_key(es[j]), entry_key(es[j]));
            }
            assert forall|i: int, j: int| 0 <= i < j < es2.len() implies entry_key(#[trigger] es2[i])
                != entry_key(#[trigger] es2[j]) by {
                lemma_key_lt_order(entry_key(es2[i]), entry_key(es2[j]), entry_key(es2[j]));
            }
            lemma_entries_map(es);
            lemma_entries_map(es2);
            let m = entries_map(es);
            let m2 = entries_map(es2);
            assert forall|kk: (Seq<char>, u16)| #[trigger] m2.contains_key(kk) <==> m.insert(k, fp@).contains_key(kk) by {
                if m2.contains_key(kk) {
                    let i = choose|i: int| 0 <= i < es2.len() && entry_key(#[trigger] es2[i]) == kk;
                    if kk != k {
                        if found {
                            assert(es2[i] == es[i]);
                        } else if i < p {
                            assert(es2[i] == es[i]);
                        } else {
                            assert(es2[i] == es[i - 1]);
                        }
                    }
                }
                if m.contains_key(kk) {
                    let i = choose|i: int| 0 <= i < es.len() && entry_key(#[trigger] es[i]) == kk;
                    if found {
                        assert(entry_key(es2[i]) == kk);
                    } else if i < p {
                        assert(es2[i] == es[i]);
                    } else {
                        assert(es2[i + 1] == es[i]);
                    }
                }
                if kk == k {
                    assert(entry_key(es2[p as int]) == k);
                }
            }
            assert forall|kk: (Seq<char>, u16)| #[trigger] m2.contains_key(kk) implies m2[kk] == m.insert(k, fp@)[kk] by {
                let i = choose|i: int| 0 <= i < es2.len() && entry_key(#[trigger] es2[i]) == kk;
                if kk == k {
                    assert(i == p) by {
                        if i != p {
                            assert(entry_key(es2[p as int]) == k);
                        }
                    }
                } else if found {
                    assert(es2[i] == es[i]);
                } else if i < p {
                    assert(es2[i] == es[i]);
                } else {
                    assert(es2[i] == es[i - 1]);
                }
            }
            assert(m2 =~= m.insert(k, fp@));
        }
    }

    /// The pin of `(host, port)`, if there is one.
    fn lookup(&self, host: &[char], port: u16) -> (r: Option<[u8; 32]>)
        requires
            self.wf(),
        ensures
            match r {
                Some(v) => self@.contains_key((host@, port)) && self@[(host@, port)] == v@,
                None => !self@.contains_key((host@, port)),
            },
    {
        let ghost es = self.entries();
        proof {
            self.lemma_entries();
            assert forall|i: int, j: int| 0 <= i < j < es.len() implies entry_key(#[trigger] es[i])
                != entry_key(#[trigger] es[j]) by {
                lemma_key_lt_order(entry_key(es[i]), entry_key(es[j]), entry_key(es[j]));
            }
            lemma_entries_map(es);
        }
        let (p, found) = self.slot(host, port);
        if found {
            assert(es[p as int] == (self.pins@[p as int].0@, self.pins@[p as int].1, self.pins@[p as int].2@));
            Some(self.pins[p].2)
        } else {
            proof {
                if self@.contains_key((host@, port)) {
                    let i = choose|i: int| 0 <= i < es.len() && entry_key(#[trigger] es[i]) == (host@, port);
                    lemma_key_lt_order(entry_key(es[i]), (host@, port), (host@, port));
                    if i > p {
                        lemma_key_lt_order((host@, port), entry_key(es[p as int]), entry_key(es[i]));
                        lemma_key_lt_order(entry_key(es[p as int]), (host@, port), (host@, port));
                        lemma_key_lt_order(entry_key(es[p as int]), entry_key(es[i]), entry_key(es[i]));
                    }
                }
            }
            None
        }
    }
}

impl View for KnownHosts {
    type V = Map<(Seq<char>, u16), Seq<u8>>;

    closed spec fn view(&self) -> Map<(Seq<char>, u16), Seq<u8>> {
        entries_map(self.entries())
    }
}


/// A lowercase hex digit: `0`..`9` or `a`..`f`.
pub open spec fn is_hex_digit(c: char) -> bool {
    (48 <= (c as u32) && (c as u32) <= 57) || (97 <= (c as u32) && (c as u32) <= 102)
}

/// The value of a lowercase hex digit.
pub open spec fn hex_digit_value(c: char) -> int {
    if (c as u32) <= 57 {
        (c as u32) - 48
    } else {
        (c as u32) - 87
    }
}

/// The text is exactly 64 lowercase hex digits.
pub open spec fn is_hex64(t: Seq<char>) -> bool {
    &&& t.len() == 64
    &&& forall|k: int| 0 <= k < 64 ==> is_hex_digit(#[trigger] t[k])
}

/// The 32 bytes that 64 hex digits write, two digits per byte, high digit first.
pub open spec fn hex64_bytes(t: Seq<char>) -> Seq<u8> {
    Seq::new(32, |i: int| (hex_digit_value(t[2 * i]) * 16 + hex_digit_value(t[2 * i + 1])) as u8)
}

/// The text a fingerprint is read from: trimmed, then lowercased.
pub open spec fn fingerprint_text(raw: Seq<char>) -> Seq<char> {
    text::str_lowercase(text::trim_ws(raw))
}

/// Reading a 32-byte fingerprint: the trimmed text must be ASCII, and once
/// lowercased exactly 64 hex digits; anything else is refused.
pub open spec fn fingerprint_parse(raw: Seq<char>) -> Option<Seq<u8>> {
    let t = fingerprint_text(raw);
    if text::all_ascii(text::trim_ws(raw)) && is_hex64(t) {
        Some(hex64_bytes(t))
    } else {
        None
    }
}

/// The value of one character if it is a lowercase hex digit.
fn hex_digit(c: char) -> (r: Option<u8>)
    ensures
        match r {
            Some(v) => is_hex_digit(c) && v == hex_digit_value(c),
            None => !is_hex_digit(c),
        },
{
    let u = c as u32;
    if 48 <= u && u <= 57 {
        Some((u - 48) as u8)
    } else if 97 <= u && u <= 102 {
        Some((u - 87) as u8)
    } else {
        None
    }
}

/// Reads a fingerprint of 64 hex digits (surrounding white space and letter
/// case do not matter); anything else is `InvalidFingerprint` with the
/// trimmed, lowercased text.
fn parse_hex32(s: &str) -> (r: Result<[u8; 32], CoreError>)
    ensures
        match fingerprint_parse(s@) {
            Some(v) => r matches Ok(b) && b@ == v,
            None => r matches Err(CoreError::InvalidFingerprint(m)) && m@ == fingerprint_text(s@),
        },
{
    let tc = trim_chars(&str_chars(s));
    let t = string_from_chars(&tc);
    let low = text::to_lowercase(t.as_str());
    let cs = str_chars(low.as_str());
    let ghost ft = fingerprint_text(s@);
    assert(cs@ == ft);
    for j in 0..tc.len()
        invariant
            tc@ == text::trim_ws(s@),
            low@ == fingerprint_text(s@),
            forall|k: int| 0 <= k < j ==> (#[trigger] tc@[k] as u32) < 128,
    {
        if (tc[j] as u32) >= 128 {
            assert(!text::all_ascii(tc@));
            return Err(CoreError::InvalidFingerprint(low));
        }
    }
    assert(text::all_ascii(text::trim_ws(s@)));
    if cs.len() != 64 {
        return Err(CoreError::InvalidFingerprint(low));
    }
    let mut out = [0u8; 32];
    let mut i: usize = 0;
    while i < 32
        invariant
            i <= 32,
            cs@ == ft,
            ft == fingerprint_text(s@),
            ft.len() == 64,
            low@ == ft,
            forall|k: int| 0 <= k < 2 * i ==> is_hex_digit(#[trigger] ft[k]),
            forall|j: int| 0 <= j < i ==> out@[j] == #[trigger] hex64_bytes(ft)[j],
        decreases 32 - i,
    {
        let hd = hex_digit(cs[2 * i]);
        let ld = hex_digit(cs[2 * i + 1]);
        let (hi, lo) = match (hd, ld) {
            (Some(h), Some(l)) => (h, l),
            _ => {
                proof {
                    let k: int = if hd is None {
                        2 * i
                    } else {
                        2 * i + 1
                    };
                    assert(cs@[k] == ft[k]);
                    assert(!is_hex_digit(ft[k]));
                    assert(!is_hex64(ft));
                }
                return Err(CoreError::InvalidFingerprint(low));
            },
        };
        out[i] = hi * 16 + lo;
        assert forall|k: int| 0 <= k < 2 * (i + 1) implies is_hex_digit(#[trigger] ft[k]) by {
            if k == 2 * i || k == 2 * i + 1 {
            }
        }
        i = i + 1;
    }
    assert(out@ =~= hex64_bytes(ft));
    Ok(out)
}

/// Reading the lowercase hex text of 32 bytes gives back those bytes.
pub proof fn lemma_fingerprint_parse_hex(b: Seq<u8>)
    requires
        b.len() == 32,
    ensures
        fingerprint_parse(encoding::hex_lower(b)) == Some(b),
{
    let h = encoding::hex_lower(b);
    encoding::lemma_hex_lower_index(b);
    assert forall|i: int| 0 <= i < 32 implies is_hex_digit(#[trigger] h[2 * i]) && is_hex_digit(
        h[2 * i + 1],
    ) && hex_digit_value(h[2 * i]) == b[i] / 16 && hex_digit_value(h[2 * i + 1]) == b[i] % 16 by {
        assert(h[2 * i] == encoding::hex_digit_lower((b[i] / 16) as int));
        assert(h[2 * i + 1] == encoding::hex_digit_lower((b[i] % 16) as int));
    }
    assert forall|k: int| 0 <= k < h.len() implies is_hex_digit(#[trigger] h[k]) by {
        let i = k / 2;
        if k % 2 == 0 {
            assert(k == 2 * i);
            assert(is_hex_digit(h[2 * i]));
        } else {
            assert(k == 2 * i + 1);
            assert(is_hex_digit(h[2 * i]));
            assert(is_hex_digit(h[2 * i + 1]));
        }
    }
    assert(text::trim_ws(h) == h) by {
        text::lemma_trim_plain(h);
    }
    assert(text::all_ascii(h));
    assert(h.map_values(|c: char| text::ascii_lower(c)) =~= h);
    assert(fingerprint_text(h) == h);
    assert(hex64_bytes(h) =~= b);
}

/// A host that is saved and read back unchanged: not empty, without white
/// space, not starting with `#`, and already in normal form (as every host
/// that is pinned is: bracket-trimmed and lowercased).
pub open spec fn plain_host(h: Seq<char>) -> bool {
    &&& h.len() > 0
    &&& h[0] != '#'
    &&& forall|i: int| 0 <= i < h.len() ==> !text::char_is_whitespace(#[trigger] h[i])
    &&& normalize_host_text(h) == h
}

/// The lines of the saved entries are the entry lines, in order.
proof fn lemma_entries_lines(es: Seq<(Seq<char>, u16, Seq<u8>)>)
    requires
        forall|i: int| 0 <= i < es.len() ==> plain_host((#[trigger] es[i]).0) && es[i].2.len() == 32,
    ensures
        text::lines_after(entries_text(es), Seq::empty()) == es.map_values(
            |e: (Seq<char>, u16, Seq<u8>)| entry_line(e),
        ),
    decreases es.len(),
{
    if es.len() == 0 {
        assert(es.map_values(|e: (Seq<char>, u16, Seq<u8>)| entry_line(e)) =~= Seq::<Seq<char>>::empty());
    } else {
        let init = es.drop_last();
        let e = es.last();
        lemma_entries_lines(init);
        let line = entry_line(e);
        lemma_entry_line(e);
        text::lemma_lines_one(line, Seq::empty());
        assert(Seq::<char>::empty() + line =~= line);
        let prev = entries_text(init);
        if init.len() == 0 {
            assert(prev =~= Seq::<char>::empty());
            assert(entries_text(es) =~= line + seq!['\n']);
        } else {
            lemma_entries_text_ends(init);
            text::lemma_lines_concat(prev, line + seq!['\n'], Seq::empty());
            assert(entries_text(es) =~= prev + (line + seq!['\n']));
        }
        assert(es.map_values(|e: (Seq<char>, u16, Seq<u8>)| entry_line(e)) =~= init.map_values(
            |e: (Seq<char>, u16, Seq<u8>)| entry_line(e),
        ).push(line));
    }
}

/// Saved entry lines end with a newline.
proof fn lemma_entries_text_ends(es: Seq<(Seq<char>, u16, Seq<u8>)>)
    requires
        es.len() > 0,
    ensures
        entries_text(es).len() > 0,
        entries_text(es).last() == '\n',
{
}

/// What one entry line is made of.
proof fn lemma_entry_line(e: (Seq<char>, u16, Seq<u8>))
    requires
        plain_host(e.0),
        e.2.len() == 32,
    ensures
        forall|i: int| 0 <= i < entry_line(e).len() ==> #[trigger] entry_line(e)[i] != '\n',
        entry_line(e).len() > 0,
        entry_line(e).last() != '\r',
        entry_line(e)[0] == e.0[0],
        !text::char_is_whitespace(entry_line(e).last()),
        text::ws_tokens(entry_line(e)) == seq![
            e.0,
            encoding::decimal_text(e.1 as nat),
            encoding::hex_lower(e.2),
        ],
{
    let d = encoding::decimal_text(e.1 as nat);
    let h = encoding::hex_lower(e.2);
    encoding::lemma_decimal_digits(e.1 as nat);
    encoding::lemma_hex_lower_index(e.2);
    assert forall|k: int| 0 <= k < h.len() implies {
        let u = #[trigger] h[k] as u32;
        (48 <= u && u <= 57) || (97 <= u && u <= 102)
    } by {
        let i = k / 2;
        assert(0 <= i < 32);
        if k % 2 == 0 {
            assert(k == 2 * i);
            assert(h[k] == encoding::hex_digit_lower((e.2[i] / 16) as int));
        } else {
            assert(k == 2 * i + 1);
            assert(h[k] == encoding::hex_digit_lower((e.2[i] % 16) as int));
        }
    }
    assert(text::no_whitespace(e.0));
    assert(text::no_whitespace(d));
    assert(text::no_whitespace(h));
    text::lemma_tokens_three(e.0, d, h);
    let l = entry_line(e);
    assert(l =~= e.0 + seq![' '] + d + seq![' '] + h);
    assert(l.last() == h.last());
    assert forall|i: int| 0 <= i < l.len() implies #[trigger] l[i] != '\n' by {
        if i < e.0.len() {
            assert(l[i] == e.0[i]);
        } else if i == e.0.len() {
        } else if i < e.0.len() + 1 + d.len() {
            assert(l[i] == d[i - e.0.len() - 1]);
        } else if i == e.0.len() + 1 + d.len() {
        } else {
            assert(l[i] == h[i - e.0.len() - 2 - d.len()]);
        }
    }
}

/// Reading the entry lines from line `j + 1` on, after the pins of the
/// first `j` entries, gives the pins of all entries.
proof fn lemma_hosts_fold(ls: Seq<Seq<char>>, es: Seq<(Seq<char>, u16, Seq<u8>)>, j: nat)
    requires
        j <= es.len(),
        ls.len() == es.len() + 1,
        forall|i: int| 0 <= i < es.len() ==> ls[i + 1] == entry_line(#[trigger] es[i]),
        forall|i: int| 0 <= i < es.len() ==> plain_host((#[trigger] es[i]).0) && es[i].2.len() == 32,
    ensures
        hosts_from(ls, j + 1, entries_map(es.take(j as int))) == HostsParse::Loaded(
            entries_map(es),
        ),
    decreases es.len() - j,
{
    if j == es.len() {
        assert(es.take(j as int) =~= es);
    } else {
        let e = es[j as int];
        lemma_entry_line(e);
        let l = entry_line(e);
        assert(ls[j + 1 as int] == l);
        text::lemma_trim_plain(l);
        encoding::lemma_parse_u16_decimal(e.1);
        lemma_fingerprint_parse_hex(e.2);
        assert(es.take(j + 1 as int).drop_last() =~= es.take(j as int));
        assert(es.take(j + 1 as int).last() == e);
        lemma_hosts_fold(ls, es, j + 1);
    }
}

/// Saving and reading back gives the same pins: the text saved for a
/// well-formed value whose hosts are plain reads back to its map of pins.
/// Every host pinned from text that is ASCII once brackets are trimmed is in
/// normal form ([`lemma_ascii_host_normal`]).
pub proof fn lemma_known_hosts_roundtrip(k: KnownHosts)
    requires
        k.wf(),
        forall|i: int| 0 <= i < k.entries().len() ==> plain_host((#[trigger] k.entries()[i]).0),
    ensures
        known_hosts_of(known_hosts_text(k.entries())) == HostsParse::Loaded(k@),
{
    k.lemma_entries();
    let es = k.entries();
    let header = KNOWN_HOSTS_HEADER@;
    reveal_strlit("# sao known_hosts: host port spki_sha256_hex");
    lemma_entries_lines(es);
    let first = header + seq!['\n'];
    text::lemma_lines_one(header, Seq::empty());
    assert(Seq::<char>::empty() + header =~= header);
    text::lemma_lines_concat(first, entries_text(es), Seq::empty());
    assert(known_hosts_text(es) =~= first + entries_text(es));
    let ls = text::text_lines(known_hosts_text(es));
    let el = es.map_values(|e: (Seq<char>, u16, Seq<u8>)| entry_line(e));
    assert(ls == seq![header] + el);
    assert(text::trim_ws(header) == header);
    assert(ls[0] == header);
    lemma_hosts_fold(ls, es, 0);
    assert(es.take(0) =~= Seq::<(Seq<char>, u16, Seq<u8>)>::empty());
}

/// A pin read after it was written gives what was written, under any host
/// text that normalizes to the written one (brackets and letter case do not
/// matter), and pins of other keys are left as they were.
pub proof fn lemma_pin_after_insert(
    m: Map<(Seq<char>, u16), Seq<u8>>,
    host: Seq<char>,
    read_host: Seq<char>,
    port: u16,
    fp: Seq<u8>,
    other: (Seq<char>, u16),
)
    requires
        normalize_host_text(read_host) == normalize_host_text(host),
    ensures
        ({
            let m2 = m.insert((normalize_host_text(host), port), fp);
            &&& m2.contains_key((normalize_host_text(read_host), port))
            &&& m2[(normalize_host_text(read_host), port)] == fp
            &&& other != (normalize_host_text(host), port) ==> m2.contains_key(other)
                == m.contains_key(other) && (m.contains_key(other) ==> m2[other] == m[other])
        }),
{
}

/// `host` with surrounding brackets removed, lowercased.
pub open spec fn normalize_host_text(h: Seq<char>) -> Seq<char> {
    text::str_lowercase(text::trim_brackets(h))
}

/// `trim_brackets` leaves no bracket at either end.
proof fn lemma_trim_brackets_edges(s: Seq<char>)
    ensures
        ({
            let t = text::trim_brackets(s);
            t.len() > 0 ==> t[0] != '[' && t[0] != ']' && t.last() != '[' && t.last() != ']'
        }),
    decreases s.len(),
{
    if s.len() > 0 && (s[0] == '[' || s[0] == ']') {
        lemma_trim_brackets_edges(s.drop_first());
    } else if s.len() > 0 && (s.last() == '[' || s.last() == ']') {
        lemma_trim_brackets_edges(s.drop_last());
    }
}

/// A host given as text that is ASCII once its brackets are trimmed is pinned
/// in normal form: normalizing the pinned host again changes nothing.
pub proof fn lemma_ascii_host_normal(x: Seq<char>)
    requires
        text::all_ascii(text::trim_brackets(x)),
    ensures
        normalize_host_text(normalize_host_text(x)) == normalize_host_text(x),
{
    let t = text::trim_brackets(x);
    let n = normalize_host_text(x);
    assert(n == t.map_values(|c: char| text::ascii_lower(c)));
    lemma_trim_brackets_edges(x);
    if n.len() > 0 {
        assert(n[0] == text::ascii_lower(t[0]));
        assert(n.last() == text::ascii_lower(t.last()));
    }
    assert(text::trim_brackets(n) == n);
    assert(text::all_ascii(n));
    assert(n.map_values(|c: char| text::ascii_lower(c)) =~= n);
}

/// Host normalization: brackets trimmed (IPv6 literals), then lowercased.
fn normalize_host(h: &str) -> (r: Vec<char>)
    ensures
        r@ == normalize_host_text(h@),
{
    lowercase_chars(&trim_brackets_chars(&str_chars(h)))
}


/// Why a known-hosts text is refused.
pub enum HostsError {
    /// A malformed line (`KnownHostsLine`).
    Line(Seq<char>),
    /// A fingerprint that is not 64 hex characters (`InvalidFingerprint`).
    Fingerprint(Seq<char>),
}

/// The outcome of reading a known-hosts text.
pub enum HostsParse {
    Loaded(Map<(Seq<char>, u16), Seq<u8>>),
    Refused(HostsError),
}

/// Reading lines `lines[i..]` into the pins `m` read so far. Blank and `#`
/// lines are skipped; each other line is `host port fingerprint`, later lines
/// winning for the same `(host, port)`.
pub open spec fn hosts_from(lines: Seq<Seq<char>>, i: nat, m: Map<(Seq<char>, u16), Seq<u8>>) -> HostsParse
    decreases lines.len() - i,
{
    if i >= lines.len() {
        HostsParse::Loaded(m)
    } else {
        let l = text::trim_ws(lines[i as int]);
        if l.len() == 0 || l[0] == '#' {
            hosts_from(lines, i + 1, m)
        } else {
            let parts = text::ws_tokens(l);
            if parts.len() < 3 {
                HostsParse::Refused(
                    HostsError::Line(text::line_msg(i + 1, "need host port fingerprint"@)),
                )
            } else {
                match encoding::parse_u16_text(parts[1]) {
                    None => HostsParse::Refused(HostsError::Line(text::line_msg(i + 1, "bad port"@))),
                    Some(port) => match fingerprint_parse(parts[2]) {
                        None => HostsParse::Refused(
                            HostsError::Fingerprint(fingerprint_text(parts[2])),
                        ),
                        Some(fp) => hosts_from(
                            lines,
                            i + 1,
                            m.insert((normalize_host_text(parts[0]), port), fp),
                        ),
                    },
                }
            }
        }
    }
}

/// How one line of a known-hosts text is read, whatever follows its third
/// token: a line with at least three tokens whose second is a port and whose
/// third is a fingerprint pins (normalized host, port) to that fingerprint,
/// later tokens being ignored; a line with fewer than three tokens refuses
/// the text with `line n: need host port fingerprint`.
pub proof fn lemma_pin_line(lines: Seq<Seq<char>>, i: nat, m: Map<(Seq<char>, u16), Seq<u8>>)
    requires
        i < lines.len(),
        text::trim_ws(lines[i as int]).len() > 0,
        text::trim_ws(lines[i as int])[0] != '#',
    ensures
        ({
            let parts = text::ws_tokens(text::trim_ws(lines[i as int]));
            &&& parts.len() < 3 ==> hosts_from(lines, i, m) == HostsParse::Refused(
                HostsError::Line(text::line_msg(i + 1, "need host port fingerprint"@)),
            )
            &&& parts.len() >= 3 ==> match (encoding::parse_u16_text(parts[1]), fingerprint_parse(
                parts[2],
            )) {
                (Some(port), Some(fp)) => hosts_from(lines, i, m) == hosts_from(
                    lines,
                    i + 1,
                    m.insert((normalize_host_text(parts[0]), port), fp),
                ),
                (None, _) => hosts_from(lines, i, m) == HostsParse::Refused(
                    HostsError::Line(text::line_msg(i + 1, "bad port"@)),
                ),
                (Some(_), None) => hosts_from(lines, i, m) == HostsParse::Refused(
                    HostsError::Fingerprint(fingerprint_text(parts[2])),
                ),
            }
        }),
{
}

/// Reading the text of a known-hosts file.
pub open spec fn known_hosts_of(text: Seq<char>) -> HostsParse {
    hosts_from(text::text_lines(text), 0, Map::empty())
}

/// The line saved for one pin: `host port hex`.
pub open spec fn entry_line(e: (Seq<char>, u16, Seq<u8>)) -> Seq<char> {
    e.0 + seq![' '] + encoding::decimal_text(e.1 as nat) + seq![' '] + encoding::hex_lower(e.2)
}

/// The lines saved for the entries `es`, each ended by `\n`.
pub open spec fn entries_text(es: Seq<(Seq<char>, u16, Seq<u8>)>) -> Seq<char>
    decreases es.len(),
{
    if es.len() == 0 {
        Seq::empty()
    } else {
        entries_text(es.drop_last()) + entry_line(es.last()) + seq!['\n']
    }
}

/// The text saved for the entries `es`: the header line, then one line per pin.
pub open spec fn known_hosts_text(es: Seq<(Seq<char>, u16, Seq<u8>)>) -> Seq<char> {
    KNOWN_HOSTS_HEADER@ + seq!['\n'] + entries_text(es)
}

impl Default for KnownHosts {
    fn default() -> (r: Self)
        ensures
            r.wf(),
            r@ == Map::<(Seq<char>, u16), Seq<u8>>::empty(),
    {
        let r = KnownHosts { pins: Vec::new() };
        assert(r.entries() =~= Seq::<(Seq<char>, u16, Seq<u8>)>::empty());
        r
    }
}

impl KnownHosts {
    /// The pin for `host:port` (host normalized).
    pub fn pin_hex(&self, host: &str, port: u16) -> (r: Result<[u8; 32], CoreError>)
        requires
            self.wf(),
        ensures
            match r {
                Ok(v) => self@.contains_key((normalize_host_text(host@), port)) && self@[(
                    normalize_host_text(host@),
                    port,
                )] == v@,
                Err(e) => !self@.contains_key((normalize_host_text(host@), port)) && (e matches CoreError::KnownHostsMissing(m)
                    && m@ == normalize_host_text(host@) + seq![':'] + encoding::decimal_text(
                    port as nat,
                )),
            },
    {
        let h = normalize_host(host);
        match self.lookup(&h, port) {
            Some(v) => Ok(v),
            None => {
                let mut m = string_from_chars(&h);
                string_push(&mut m, ':');
                push_decimal(&mut m, port as u64);
                Err(CoreError::KnownHostsMissing(m))
            },
        }
    }

    /// Pins `host:port` to the fingerprint `hex_fp` (64 hex digits); any
    /// other fingerprint text is refused and nothing changes.
    pub fn insert_hex(&mut self, host: &str, port: u16, hex_fp: &str) -> (r: Result<(), CoreError>)
        requires
            old(self).wf(),
        ensures
            final(self).wf(),
            match fingerprint_parse(hex_fp@) {
                Some(v) => r is Ok && final(self)@ == old(self)@.insert(
                    (normalize_host_text(host@), port),
                    v,
                ),
                None => final(self)@ == old(self)@ && (r matches Err(CoreError::InvalidFingerprint(m))
                    && m@ == fingerprint_text(hex_fp@)),
            },
    {
        let fp = parse_hex32(hex_fp)?;
        let h = normalize_host(host);
        self.insert_entry(&h, port, fp);
        Ok(())
    }

    /// Reads the text of a known-hosts file.
    pub fn from_text(text: &str) -> (r: Result<KnownHosts, CoreError>)
        ensures
            match r {
                Ok(k) => k.wf() && known_hosts_of(text@) == HostsParse::Loaded(k@),
                Err(e) => match known_hosts_of(text@) {
                    HostsParse::Refused(HostsError::Line(m)) => e matches CoreError::KnownHostsLine(s)
                        && s@ == m,
                    HostsParse::Refused(HostsError::Fingerprint(m)) => e matches CoreError::InvalidFingerprint(s)
                        && s@ == m,
                    _ => false,
                },
            },
    {
        let chars = str_chars(text);
        let lines = split_lines(&chars);
        let ghost ls = text::text_lines(text@);
        let mut k = KnownHosts::default();
        let mut idx: usize = 0;
        while idx < lines.len()
            invariant
                lines@.len() == ls.len(),
                forall|j: int| 0 <= j < lines@.len() ==> #[trigger] lines@[j]@ == ls[j],
                ls == text::text_lines(text@),
                idx <= ls.len(),
                k.wf(),
                known_hosts_of(text@) == hosts_from(ls, idx as nat, k@),
            decreases ls.len() - idx,
        {
            let n = idx + 1;
            let line = trim_chars(&lines[idx]);
            if line.len() == 0 || line[0] == '#' {
                idx = idx + 1;
                continue;
            }
            let parts = split_whitespace(&line);
            if parts.len() < 3 {
                let m = line_message(n, &str_chars("need host port fingerprint"));
                return Err(CoreError::KnownHostsLine(m));
            }
            let host = normalize_host(string_from_chars(&parts[0]).as_str());
            let port = match parse_u16(&parts[1]) {
                Some(p) => p,
                None => {
                    let m = line_message(n, &str_chars("bad port"));
                    return Err(CoreError::KnownHostsLine(m));
                },
            };
            let fp = parse_hex32(string_from_chars(&parts[2]).as_str())?;
            k.insert_entry(&host, port, fp);
            idx = idx + 1;
        }
        Ok(k)
    }

    /// The text of the known-hosts file: the header, then `host port hex` per
    /// pin in increasing `(host, port)` order, each line ended by `\n`.
    pub fn to_text(&self) -> (r: String)
        requires
            self.wf(),
        ensures
            r@ == known_hosts_text(self.entries()),
    {
        let mut s = String::new();
        string_push_str(&mut s, KNOWN_HOSTS_HEADER);
        string_push(&mut s, '\n');
        let ghost es = self.entries();
        for i in 0..self.pins.len()
            invariant
                es == self.entries(),
                es.len() == self.pins@.len(),
                s@ == KNOWN_HOSTS_HEADER@ + seq!['\n'] + entries_text(es.take(i as int)),
        {
            let ghost before = s@;
            string_push_str(&mut s, self.pins[i].0.as_str());
            string_push(&mut s, ' ');
            push_decimal(&mut s, self.pins[i].1 as u64);
            string_push(&mut s, ' ');
            let hx = hex_encode(&self.pins[i].2);
            string_push_str(&mut s, hx.as_str());
            string_push(&mut s, '\n');
            assert(es[i as int] == (self.pins@[i as int].0@, self.pins@[i as int].1, self.pins@[i as int].2@));
            assert(es.take(i + 1).drop_last() =~= es.take(i as int));
            assert(s@ =~= KNOWN_HOSTS_HEADER@ + seq!['\n'] + entries_text(es.take(i + 1)));
        }
        assert(es.take(es.len() as int) =~= es);
        s
    }
}

} // verus!
