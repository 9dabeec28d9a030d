//! Character-level text helpers shared by the parsers and formatters.
//! Texts are handled as sequences of `char`; the std functions that decide
//! what a character is (white space, lowercase) are called, never rebuilt.

use vstd::prelude::*;

use crate::encoding;
use crate::encoding::push_decimal;

verus! {

broadcast use vstd::string::group_string_axioms;

/// Appends `c` to `s` (std `String::push`).
#[verifier::external_body]
pub(crate) fn string_push(s: &mut String, c: char)
    ensures
        final(s)@ == old(s)@.push(c),
{
    s.push(c);
}

/// Appends `t` to `s` (std `String::push_str`).
#[verifier::external_body]
pub(crate) fn string_push_str(s: &mut String, t: &str)
    ensures
        final(s)@ == old(s)@ + t@,
{
    s.push_str(t);
}

/// The characters of `s`, in order.
pub fn str_chars(s: &str) -> (out: Vec<char>)
    ensures
        out@ == s@,
{
    let mut out: Vec<char> = Vec::new();
    for c in it: s.chars()
        invariant
            out@ == it.seq().take(it.index() as int),
    {
        out.push(c);
    }
    out
}

/// The string made of the characters `cs`.
pub fn string_from_chars(cs: &[char]) -> (s: String)
    ensures
        s@ == cs@,
{
    let mut s = String::new();
    for i in 0..cs.len()
        invariant
            s@ == cs@.take(i as int),
    {
        string_push(&mut s, cs[i]);
        assert(s@ =~= cs@.take(i + 1));
    }
    assert(cs@.take(cs@.len() as int) =~= cs@);
    s
}

/// A copy of `s@.subrange(lo, hi)`.
pub fn sub_chars(s: &[char], lo: usize, hi: usize) -> (out: Vec<char>)
    requires
        lo <= hi <= s@.len(),
    ensures
        out@ == s@.subrange(lo as int, hi as int),
{
    let mut out: Vec<char> = Vec::new();
    for i in lo..hi
        invariant
            hi <= s@.len(),
            out@ == s@.subrange(lo as int, i as int),
    {
        out.push(s[i]);
        assert(out@ =~= s@.subrange(lo as int, i + 1));
    }
    out
}

/// Whether `a` and `b` hold the same characters.
pub fn chars_eq(a: &[char], b: &[char]) -> (r: bool)
    ensures
        r == (a@ == b@),
{
    if a.len() != b.len() {
        return false;
    }
    for i in 0..a.len()
        invariant
            a@.len() == b@.len(),
            forall|j: int| 0 <= j < i ==> a@[j] == b@[j],
    {
        if a[i] != b[i] {
            return false;
        }
    }
    assert(a@ =~= b@);
    true
}

/// Whether `c` has the Unicode `White_Space` property (PropList.txt):
/// U+0009..=U+000D, U+0020, U+0085, U+00A0, U+1680, U+2000..=U+200A,
/// U+2028, U+2029, U+202F, U+205F and U+3000.
pub open spec fn char_is_whitespace(c: char) -> bool {
    let u = c as u32;
    (9 <= u && u <= 13) || u == 0x20 || u == 0x85 || u == 0xA0 || u == 0x1680 || (0x2000 <= u
        && u <= 0x200A) || u == 0x2028 || u == 0x2029 || u == 0x202F || u == 0x205F || u == 0x3000
}

/// `char::is_whitespace`: whether `c` has the Unicode `White_Space` property,
/// whose members the contract lists.
#[verifier::external_body]
pub(crate) fn is_whitespace(c: char) -> (b: bool)
    ensures
        b == char_is_whitespace(c),
{
    c.is_whitespace()
}

/// The text `s` without leading white space.
pub open spec fn trim_start_ws(s: Seq<char>) -> Seq<char>
    decreases s.len(),
{
    if s.len() > 0 && char_is_whitespace(s[0]) {
        trim_start_ws(s.drop_first())
    } else {
        s
    }
}

/// The text `s` without trailing white space.
pub open spec fn trim_end_ws(s: Seq<char>) -> Seq<char>
    decreases s.len(),
{
    if s.len() > 0 && char_is_whitespace(s.last()) {
        trim_end_ws(s.drop_last())
    } else {
        s
    }
}

/// `str::trim`: `s` without leading and trailing white space.
pub open spec fn trim_ws(s: Seq<char>) -> Seq<char> {
    trim_end_ws(trim_start_ws(s))
}

/// `str::trim` on characters.
pub fn trim_chars(s: &[char]) -> (out: Vec<char>)
    ensures
        out@ == trim_ws(s@),
{
    let mut lo: usize = 0;
    assert(s@.skip(0) =~= s@);
    while lo < s.len() && is_whitespace(s[lo])
        invariant
            lo <= s@.len(),
            trim_start_ws(s@) == trim_start_ws(s@.skip(lo as int)),
        decreases s@.len() - lo,
    {
        assert(s@.skip(lo as int).drop_first() =~= s@.skip(lo + 1));
        lo = lo + 1;
    }
    let mut hi: usize = s.len();
    let ghost t = s@.skip(lo as int);
    assert(trim_start_ws(s@) == t) by {
        if lo < s@.len() {
            assert(t[0] == s@[lo as int]);
        } else {
            assert(t =~= Seq::<char>::empty());
        }
    }
    assert(t =~= s@.subrange(lo as int, hi as int));
    while hi > lo && is_whitespace(s[hi - 1])
        invariant
            lo <= hi <= s@.len(),
            trim_ws(s@) == trim_end_ws(s@.subrange(lo as int, hi as int)),
        decreases hi,
    {
        assert(s@.subrange(lo as int, hi as int).drop_last() =~= s@.subrange(
            lo as int,
            hi - 1,
        ));
        hi = hi - 1;
    }
    sub_chars(s, lo, hi)
}

/// `l` without one trailing carriage return.
pub open spec fn strip_cr(l: Seq<char>) -> Seq<char> {
    if l.len() > 0 && l.last() == '\r' {
        l.drop_last()
    } else {
        l
    }
}

/// The lines of `s` that follow the partial line `cur` (`str::lines`): lines end
/// at `\n`, a `\r` right before that `\n` is dropped, and a final line without
/// `\n` is kept only when it is not empty.
pub open spec fn lines_after(s: Seq<char>, cur: Seq<char>) -> Seq<Seq<char>>
    decreases s.len(),
{
    if s.len() == 0 {
        if cur.len() > 0 {
            seq![cur]
        } else {
            Seq::empty()
        }
    } else if s[0] == '\n' {
        seq![strip_cr(cur)] + lines_after(s.drop_first(), Seq::empty())
    } else {
        lines_after(s.drop_first(), cur.push(s[0]))
    }
}

/// `str::lines`.
pub open spec fn text_lines(s: Seq<char>) -> Seq<Seq<char>> {
    lines_after(s, Seq::empty())
}

/// `str::lines` on characters.
pub fn split_lines(s: &[char]) -> (out: Vec<Vec<char>>)
    ensures
        out@.len() == text_lines(s@).len(),
        forall|k: int| 0 <= k < out@.len() ==> #[trigger] out@[k]@ == text_lines(s@)[k],
{
    let mut out: Vec<Vec<char>> = Vec::new();
    let mut cur: Vec<char> = Vec::new();
    let ghost mut done: Seq<Seq<char>> = Seq::empty();
    assert(s@.skip(0) =~= s@);
    assert(done + lines_after(s@, cur@) =~= lines_after(s@, cur@));
    for i in 0..s.len()
        invariant
            out@.len() == done.len(),
            forall|k: int| 0 <= k < out@.len() ==> #[trigger] out@[k]@ == done[k],
            text_lines(s@) == done + lines_after(s@.skip(i as int), cur@),
    {
        let ghost rest = s@.skip(i as int);
        assert(rest[0] == s@[i as int]);
        assert(rest.drop_first() =~= s@.skip(i + 1));
        if s[i] == '\n' {
            let mut line = cur;
            if line.len() > 0 && line[line.len() - 1] == '\r' {
                line.pop();
            }
            assert(line@ == strip_cr(cur@));
            let ghost old_done = done;
            let ghost old_cur = cur@;
            let ghost tail = lines_after(s@.skip(i + 1), Seq::empty());
            assert(lines_after(rest, old_cur) == seq![strip_cr(old_cur)] + tail);
            proof {
                done = done.push(line@);
            }
            out.push(line);
            cur = Vec::new();
            assert(old_done + (seq![strip_cr(old_cur)] + tail) =~= done + tail);
        } else {
            cur.push(s[i]);
        }
    }
    assert(s@.skip(s@.len() as int) =~= Seq::<char>::empty());
    if cur.len() > 0 {
        proof {
            done = done.push(cur@);
        }
        out.push(cur);
    }
    assert(text_lines(s@) =~= done);
    out
}

/// Lines split off a text ending with a newline leave the rest to be split on its own.
pub proof fn lemma_lines_concat(x: Seq<char>, y: Seq<char>, cur: Seq<char>)
    requires
        x.len() > 0,
        x.last() == '\n',
    ensures
        lines_after(x + y, cur) == lines_after(x, cur) + lines_after(y, Seq::empty()),
    decreases x.len(),
{
    let xs = x.drop_first();
    assert((x + y).drop_first() =~= xs + y);
    assert((x + y)[0] == x[0]);
    if x[0] == '\n' {
        if xs.len() == 0 {
            assert(xs + y =~= y);
            assert(lines_after(xs, Seq::empty()) =~= Seq::<Seq<char>>::empty());
            assert(lines_after(x, cur) == seq![strip_cr(cur)] + lines_after(xs, Seq::empty()));
            assert(lines_after(x, cur) =~= seq![strip_cr(cur)]);
        } else {
            assert(xs.last() == x.last());
            lemma_lines_concat(xs, y, Seq::empty());
            assert(seq![strip_cr(cur)] + (lines_after(xs, Seq::empty()) + lines_after(
                y,
                Seq::empty(),
            )) =~= seq![strip_cr(cur)] + lines_after(xs, Seq::empty()) + lines_after(
                y,
                Seq::empty(),
            ));
        }
    } else {
        assert(xs.len() > 0);
        assert(xs.last() == x.last());
        lemma_lines_concat(xs, y, cur.push(x[0]));
    }
}

/// A text without newlines, followed by one, is one line (without a final `\r`).
pub proof fn lemma_lines_one(l: Seq<char>, cur: Seq<char>)
    requires
        forall|i: int| 0 <= i < l.len() ==> l[i] != '\n',
    ensures
        lines_after(l + seq!['\n'], cur) == seq![strip_cr(cur + l)],
    decreases l.len(),
{
    if l.len() == 0 {
        assert(l + seq!['\n'] =~= seq!['\n']);
        assert(seq!['\n'].drop_first() =~= Seq::<char>::empty());
        assert(cur + l =~= cur);
        assert(lines_after(Seq::<char>::empty(), Seq::empty()) =~= Seq::<Seq<char>>::empty());
        assert(lines_after(seq!['\n'], cur) =~= seq![strip_cr(cur)]);
    } else {
        let ls = l.drop_first();
        assert((l + seq!['\n']).drop_first() =~= ls + seq!['\n']);
        assert((l + seq!['\n'])[0] == l[0]);
        lemma_lines_one(ls, cur.push(l[0]));
        assert(cur.push(l[0]) + ls =~= cur + l);
    }
}

/// `s` has no white space character.
pub open spec fn no_whitespace(s: Seq<char>) -> bool {
    forall|i: int| 0 <= i < s.len() ==> !char_is_whitespace(#[trigger] s[i])
}

/// A run without white space extends the current token.
pub proof fn lemma_tokens_word(w: Seq<char>, rest: Seq<char>, cur: Seq<char>)
    requires
        no_whitespace(w),
    ensures
        tokens_after(w + rest, cur) == tokens_after(rest, cur + w),
    decreases w.len(),
{
    if w.len() == 0 {
        assert(w + rest =~= rest);
        assert(cur + w =~= cur);
    } else {
        let ws = w.drop_first();
        assert((w + rest).drop_first() =~= ws + rest);
        assert((w + rest)[0] == w[0]);
        lemma_tokens_word(ws, rest, cur.push(w[0]));
        assert(cur.push(w[0]) + ws =~= cur + w);
    }
}

/// Three words without white space, separated by single spaces, are three tokens.
pub proof fn lemma_tokens_three(a: Seq<char>, b: Seq<char>, c: Seq<char>)
    requires
        a.len() > 0,
        b.len() > 0,
        c.len() > 0,
        no_whitespace(a),
        no_whitespace(b),
        no_whitespace(c),
    ensures
        ws_tokens(a + seq![' '] + b + seq![' '] + c) == seq![a, b, c],
{
    let e = Seq::<char>::empty();
    let s2 = seq![' '] + b + seq![' '] + c;
    let s3 = b + seq![' '] + c;
    let s4 = seq![' '] + c;
    assert(a + seq![' '] + b + seq![' '] + c =~= a + s2);
    lemma_tokens_word(a, s2, e);
    assert(e + a =~= a);
    assert(s2[0] == ' ');
    assert(s2.drop_first() =~= s3);
    assert(tokens_after(s2, a) == seq![a] + tokens_after(s3, e));
    assert(s3 =~= b + s4);
    lemma_tokens_word(b, s4, e);
    assert(e + b =~= b);
    assert(s4[0] == ' ');
    assert(s4.drop_first() =~= c);
    assert(tokens_after(s4, b) == seq![b] + tokens_after(c, e));
    assert(c =~= c + e);
    lemma_tokens_word(c, e, e);
    assert(e + c =~= c);
    assert(tokens_after(e, c) == seq![c]);
    assert(seq![a] + (seq![b] + seq![c]) =~= seq![a, b, c]);
}

/// A text whose first and last characters are not white space is its own trim.
pub proof fn lemma_trim_plain(s: Seq<char>)
    requires
        s.len() > 0,
        !char_is_whitespace(s[0]),
        !char_is_whitespace(s.last()),
    ensures
        trim_ws(s) == s,
{
}

/// The white-space separated tokens of `s` that follow the partial token `cur`
/// (`str::split_whitespace`).
pub open spec fn tokens_after(s: Seq<char>, cur: Seq<char>) -> Seq<Seq<char>>
    decreases s.len(),
{
    if s.len() == 0 {
        if cur.len() > 0 {
            seq![cur]
        } else {
            Seq::empty()
        }
    } else if char_is_whitespace(s[0]) {
        (if cur.len() > 0 {
            seq![cur]
        } else {
            Seq::empty()
        }) + tokens_after(s.drop_first(), Seq::empty())
    } else {
        tokens_after(s.drop_first(), cur.push(s[0]))
    }
}

/// `str::split_whitespace`: the maximal runs of characters without white space.
pub open spec fn ws_tokens(s: Seq<char>) -> Seq<Seq<char>> {
    tokens_after(s, Seq::empty())
}

/// `str::split_whitespace` on characters.
pub fn split_whitespace(s: &[char]) -> (out: Vec<Vec<char>>)
    ensures
        out@.len() == ws_tokens(s@).len(),
        forall|k: int| 0 <= k < out@.len() ==> #[trigger] out@[k]@ == ws_tokens(s@)[k],
{
    let mut out: Vec<Vec<char>> = Vec::new();
    let mut cur: Vec<char> = Vec::new();
    let ghost mut done: Seq<Seq<char>> = Seq::empty();
    assert(s@.skip(0) =~= s@);
    assert(done + tokens_after(s@, cur@) =~= tokens_after(s@, cur@));
    for i in 0..s.len()
        invariant
            out@.len() == done.len(),
            forall|k: int| 0 <= k < out@.len() ==> #[trigger] out@[k]@ == done[k],
            ws_tokens(s@) == done + tokens_after(s@.skip(i as int), cur@),
    {
        let ghost rest = s@.skip(i as int);
        assert(rest[0] == s@[i as int]);
        assert(rest.drop_first() =~= s@.skip(i + 1));
        if is_whitespace(s[i]) {
            let ghost tail = tokens_after(s@.skip(i + 1), Seq::empty());
            if cur.len() > 0 {
                let ghost old_done = done;
                let ghost old_cur = cur@;
                assert(tokens_after(rest, old_cur) == seq![old_cur] + tail);
                proof {
                    done = done.push(cur@);
                }
                out.push(cur);
                cur = Vec::new();
                assert(old_done + (seq![old_cur] + tail) =~= done + tail);
            } else {
                assert(tokens_after(rest, cur@) == Seq::<Seq<char>>::empty() + tail);
                assert(Seq::<Seq<char>>::empty() + tail =~= tail);
                assert(cur@ =~= Seq::<char>::empty());
            }
        } else {
            cur.push(s[i]);
        }
    }
    assert(s@.skip(s@.len() as int) =~= Seq::<char>::empty());
    if cur.len() > 0 {
        proof {
            done = done.push(cur@);
        }
        out.push(cur);
    }
    assert(ws_tokens(s@) =~= done);
    out
}

/// `p` occurs in `s` at position `i`.
pub open spec fn occurs_at(s: Seq<char>, p: Seq<char>, i: int) -> bool {
    0 <= i && i + p.len() <= s.len() && s.subrange(i, i + p.len()) == p
}

/// `p` is a substring of `s` (`str::contains` with a string pattern).
pub open spec fn contains_text(s: Seq<char>, p: Seq<char>) -> bool {
    exists|i: int| occurs_at(s, p, i)
}

/// A text contains every piece it is made of: `p` occurs in `a + p + b`
/// (right after `a`), so a shell line holding a deny pattern anywhere is
/// denied.
pub proof fn lemma_contains_piece(a: Seq<char>, p: Seq<char>, b: Seq<char>)
    ensures
        contains_text(a + p + b, p),
        occurs_at(a + p + b, p, a.len() as int),
{
    assert((a + p + b).subrange(a.len() as int, a.len() + p.len() as int) =~= p);
    assert(occurs_at(a + p + b, p, a.len() as int));
}

/// The first position at or after `from` where `p` occurs in `s`.
pub fn find_chars_from(s: &[char], p: &[char], from: usize) -> (r: Option<usize>)
    requires
        from <= s@.len(),
    ensures
        match r {
            Some(i) => from <= i && occurs_at(s@, p@, i as int) && forall|j: int|
                from <= j < i ==> !occurs_at(s@, p@, j),
            None => forall|j: int| from <= j ==> !occurs_at(s@, p@, j),
        },
{
    if p.len() > s.len() {
        return None;
    }
    let last = s.len() - p.len();
    if from > last {
        return None;
    }
    let mut i = from;
    while i <= last
        invariant
            from <= i <= last,
            last + p.len() == s.len(),
            forall|j: int| from <= j < i ==> !occurs_at(s@, p@, j),
        decreases last - i,
    {
        let mut k: usize = 0;
        let mut matched = true;
        while k < p.len()
            invariant
                i <= last,
                last + p.len() == s.len(),
                k <= p@.len(),
                matched ==> forall|m: int| 0 <= m < k ==> s@[i + m] == p@[m],
                !matched ==> !occurs_at(s@, p@, i as int),
            decreases p@.len() - k,
        {
            if matched && s[i + k] != p[k] {
                matched = false;
                assert(s@.subrange(i as int, i + p@.len())[k as int] == s@[i + k]);
            }
            k = k + 1;
        }
        if matched {
            assert(s@.subrange(i as int, i + p@.len()) =~= p@);
            return Some(i);
        }
        if i == last {
            return None;
        }
        i = i + 1;
    }
    None
}

/// The first position where `p` occurs in `s`, if it occurs.
#[verifier::opaque]
pub open spec fn first_occurrence(s: Seq<char>, p: Seq<char>) -> Option<int> {
    if contains_text(s, p) {
        Some(
            choose|i: int|
                occurs_at(s, p, i) && forall|j: int| 0 <= j < i ==> !occurs_at(s, p, j),
        )
    } else {
        None
    }
}

/// `str::find`, by character position.
pub fn find_first(s: &[char], p: &[char]) -> (r: Option<usize>)
    ensures
        match r {
            Some(i) => first_occurrence(s@, p@) == Some(i as int) && occurs_at(s@, p@, i as int),
            None => first_occurrence(s@, p@) is None,
        },
{
    let r = find_chars_from(s, p, 0);
    proof {
        reveal(first_occurrence);
        if let Some(i) = r {
            let c = choose|c: int|
                occurs_at(s@, p@, c) && forall|j: int| 0 <= j < c ==> !occurs_at(s@, p@, j);
            assert(occurs_at(s@, p@, i as int) && forall|j: int|
                0 <= j < i ==> !occurs_at(s@, p@, j));
            assert(c == i);
        }
    }
    r
}

/// Whether `p` is a substring of `s`.
pub fn contains_chars(s: &[char], p: &[char]) -> (r: bool)
    ensures
        r == contains_text(s@, p@),
{
    match find_chars_from(s, p, 0) {
        Some(i) => true,
        None => false,
    }
}

/// `s` begins with `p`.
pub open spec fn has_prefix(s: Seq<char>, p: Seq<char>) -> bool {
    p.len() <= s.len() && s.take(p.len() as int) == p
}

/// Whether `s` begins with `p`.
pub fn starts_with_chars(s: &[char], p: &[char]) -> (r: bool)
    ensures
        r == has_prefix(s@, p@),
{
    if p.len() > s.len() {
        return false;
    }
    for i in 0..p.len()
        invariant
            p@.len() <= s@.len(),
            forall|j: int| 0 <= j < i ==> s@[j] == p@[j],
    {
        if s[i] != p[i] {
            assert(s@.take(p@.len() as int)[i as int] == s@[i as int]);
            return false;
        }
    }
    assert(s@.take(p@.len() as int) =~= p@);
    true
}

/// The lowercase of a text that is not all ASCII, as std computes it
/// (Unicode lowercase mappings, with the final-sigma rule).
pub uninterp spec fn str_lowercase_unicode(s: Seq<char>) -> Seq<char>;

/// The ASCII lowercase of one character (other characters unchanged).
pub open spec fn ascii_lower(c: char) -> char {
    if 65 <= (c as u32) && (c as u32) <= 90 {
        ((c as u32) + 32) as char
    } else {
        c
    }
}

/// `s` holds only ASCII characters.
pub open spec fn all_ascii(s: Seq<char>) -> bool {
    forall|i: int| 0 <= i < s.len() ==> (#[trigger] s[i] as u32) < 128
}

/// The lowercase of `s` as `str::to_lowercase` computes it: an all-ASCII text
/// is lowercased character by character (`A`..`Z` to `a`..`z`, nothing else
/// changes); any other text gets the named Unicode result.
pub open spec fn str_lowercase(s: Seq<char>) -> Seq<char> {
    if all_ascii(s) {
        s.map_values(|c: char| ascii_lower(c))
    } else {
        str_lowercase_unicode(s)
    }
}

/// `str::to_lowercase`.
#[verifier::external_body]
pub(crate) fn to_lowercase(s: &str) -> (r: String)
    ensures
        r@ == str_lowercase(s@),
        !all_ascii(s@) ==> r@ == str_lowercase_unicode(s@),
{
    s.to_lowercase()
}

/// `str::to_lowercase` on characters.
pub fn lowercase_chars(s: &[char]) -> (out: Vec<char>)
    ensures
        out@ == str_lowercase(s@),
{
    let st = string_from_chars(s);
    let lower = to_lowercase(st.as_str());
    str_chars(lower.as_str())
}

/// The text std's `Debug` formatting gives for the string `s` (quoted and escaped).
pub uninterp spec fn str_debug_text(s: Seq<char>) -> Seq<char>;

/// `format!("{:?}", s)` for a string: the quoted, escaped form of `s`.
#[verifier::external_body]
pub(crate) fn debug_text(s: &str) -> (r: String)
    ensures
        r@ == str_debug_text(s@),
{
    format!("{:?}", s)
}

/// `s` with all leading and trailing `[` and `]` removed
/// (`str::trim_matches(&['[', ']'][..])`).
pub open spec fn trim_brackets(s: Seq<char>) -> Seq<char>
    decreases s.len(),
{
    if s.len() > 0 && (s[0] == '[' || s[0] == ']') {
        trim_brackets(s.drop_first())
    } else if s.len() > 0 && (s.last() == '[' || s.last() == ']') {
        trim_brackets(s.drop_last())
    } else {
        s
    }
}

/// `str::trim_matches(&['[', ']'][..])` on characters.
pub fn trim_brackets_chars(s: &[char]) -> (out: Vec<char>)
    ensures
        out@ == trim_brackets(s@),
{
    let mut lo: usize = 0;
    let mut hi: usize = s.len();
    assert(s@.subrange(0, s@.len() as int) =~= s@);
    while lo < hi && (s[lo] == '[' || s[lo] == ']' || s[hi - 1] == '[' || s[hi - 1] == ']')
        invariant
            lo <= hi <= s@.len(),
            trim_brackets(s@) == trim_brackets(s@.subrange(lo as int, hi as int)),
        decreases hi - lo,
    {
        let ghost t = s@.subrange(lo as int, hi as int);
        if s[lo] == '[' || s[lo] == ']' {
            assert(t.drop_first() =~= s@.subrange(lo + 1, hi as int));
            lo = lo + 1;
        } else {
            assert(t.drop_last() =~= s@.subrange(lo as int, hi - 1));
            hi = hi - 1;
        }
    }
    sub_chars(s, lo, hi)
}

/// `format!("line {n}: {m}")`.
pub open spec fn line_msg(n: nat, m: Seq<char>) -> Seq<char> {
    "line "@ + encoding::decimal_text(n) + ": "@ + m
}

/// `format!("line {n}: {m}")`.
pub fn line_message(n: usize, m: &[char]) -> (s: String)
    ensures
        s@ == line_msg(n as nat, m@),
{
    let mut s = String::new();
    string_push_str(&mut s, "line ");
    push_decimal(&mut s, n as u64);
    string_push_str(&mut s, ": ");
    for i in 0..m.len()
        invariant
            s@ == "line "@ + encoding::decimal_text(n as nat) + ": "@ + m@.take(i as int),
    {
        string_push(&mut s, m[i]);
        assert(s@ =~= "line "@ + encoding::decimal_text(n as nat) + ": "@ + m@.take(i + 1));
    }
    assert(m@.take(m@.len() as int) =~= m@);
    assert(s@ =~= line_msg(n as nat, m@));
    s
}

/// The words `ws` joined with single spaces (`join(" ")`).
pub open spec fn join_with_space(ws: Seq<Seq<char>>) -> Seq<char>
    decreases ws.len(),
{
    if ws.len() == 0 {
        Seq::empty()
    } else if ws.len() == 1 {
        ws[0]
    } else {
        join_with_space(ws.drop_last()) + seq![' '] + ws.last()
    }
}

/// The words `ws[from..]` joined with single spaces.
pub fn join_words_from(ws: &Vec<Vec<char>>, from: usize) -> (out: Vec<char>)
    requires
        from <= ws@.len(),
    ensures
        out@ == join_with_space(ws@.skip(from as int).map_values(|w: Vec<char>| w@)),
{
    let ghost words = ws@.skip(from as int).map_values(|w: Vec<char>| w@);
    let mut out: Vec<char> = Vec::new();
    let mut i = from;
    assert(words.take(0) =~= Seq::<Seq<char>>::empty());
    while i < ws.len()
        invariant
            from <= i <= ws@.len(),
            words == ws@.skip(from as int).map_values(|w: Vec<char>| w@),
            out@ == join_with_space(words.take(i - from)),
        decreases ws@.len() - i,
    {
        let ghost k = (i - from) as int;
        assert(words.take(k + 1).drop_last() =~= words.take(k));
        assert(words[k] == ws@[i as int]@);
        if i > from {
            out.push(' ');
        }
        let w = &ws[i];
        for j in 0..w.len()
            invariant
                i < ws@.len(),
                w@ == ws@[i as int]@,
                out@ == (if k > 0 {
                    join_with_space(words.take(k)) + seq![' ']
                } else {
                    Seq::empty()
                }) + w@.take(j as int),
        {
            out.push(w[j]);
            assert(out@ =~= (if k > 0 {
                join_with_space(words.take(k)) + seq![' ']
            } else {
                Seq::empty()
            }) + w@.take(j + 1));
        }
        assert(w@.take(w@.len() as int) =~= w@);
        assert(out@ =~= join_with_space(words.take(k + 1)));
        i = i + 1;
    }
    assert(words.take(ws@.len() - from) =~= words);
    out
}

} // verus!
