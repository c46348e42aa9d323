//! Text as sequences of characters.

use vstd::prelude::*;
use vstd::utf8::{decode_utf8, encode_utf8, encode_utf8_decode_utf8, valid_utf8};

verus! {

broadcast use vstd::string::group_string_axioms;

/// `String::push` appends one character.
pub assume_specification[ std::string::String::push ](s: &mut std::string::String, c: char)
    ensures
        final(s)@ == old(s)@.push(c),
;

/// The text that `String::from_utf8_lossy` makes of some bytes.
pub uninterp spec fn lossy_text(bytes: Seq<u8>) -> Seq<char>;

/// `String::from_utf8_lossy`: the text of some bytes, which is exactly what they
/// encode where they are UTF-8, and has replacement characters elsewhere.
#[verifier::external_body]
pub(crate) fn decode_lossy(bytes: &[u8]) -> (r: String)
    ensures
        r@ == lossy_text(bytes@),
        valid_utf8(bytes@) ==> r@ == decode_utf8(bytes@),
{
    String::from_utf8_lossy(bytes).into_owned()
}

// ---------------------------------------------------------------------------
// Characters and back
// ---------------------------------------------------------------------------

/// The views of some strings.
pub open spec fn views(v: Seq<String>) -> Seq<Seq<char>> {
    Seq::new(v.len(), |i: int| v[i]@)
}

/// The view of an optional string.
pub open spec fn opt_view(s: Option<String>) -> Option<Seq<char>> {
    match s {
        Some(s) => Some(s@),
        None => None,
    }
}

/// The characters of a text.
pub fn chars_of(s: &str) -> (v: Vec<char>)
    ensures
        v@ == s@,
{
    let mut v: Vec<char> = Vec::new();
    for c in it: s.chars()
        invariant
            it.seq() == s@,
            v@ == s@.take(it.index() as int),
    {
        assert(s@.take(it.index() + 1) =~= s@.take(it.index() as int).push(c));
        v.push(c);
    }
    assert(s@.take(s@.len() as int) =~= s@);
    v
}

/// The text of the characters at `lo..hi`.
pub fn text_of(v: &Vec<char>, lo: usize, hi: usize) -> (s: String)
    requires
        lo <= hi <= v@.len(),
    ensures
        s@ == v@.subrange(lo as int, hi as int),
{
    let mut s = String::new();
    let mut i: usize = lo;
    assert(s@ =~= v@.subrange(lo as int, lo as int));
    while i < hi
        invariant
            lo <= i <= hi <= v@.len(),
            s@ == v@.subrange(lo as int, i as int),
        decreases hi - i,
    {
        assert(v@.subrange(lo as int, i + 1) =~= v@.subrange(lo as int, i as int).push(v@[i as int]));
        s.push(v[i]);
        i += 1;
    }
    s
}

/// Whether two texts are the same.
pub fn str_eq(a: &str, b: &str) -> (r: bool)
    ensures
        r == (a@ == b@),
{
    proof {
        encode_utf8_decode_utf8(a@);
        encode_utf8_decode_utf8(b@);
    }
    let x = a.as_bytes();
    let y = b.as_bytes();
    if x.len() != y.len() {
        return false;
    }
    let mut i: usize = 0;
    while i < x.len()
        invariant
            i <= x@.len(),
            x@.len() == y@.len(),
            x@ == encode_utf8(a@),
            y@ == encode_utf8(b@),
            forall|j: int| 0 <= j < i ==> x@[j] == y@[j],
        decreases x.len() - i,
    {
        if x[i] != y[i] {
            assert(x@ != y@);
            return false;
        }
        i += 1;
    }
    assert(x@ =~= y@);
    true
}

/// Whether a text has no characters.
pub fn is_empty(s: &str) -> (r: bool)
    ensures
        r == (s@.len() == 0),
{
    proof {
        encode_utf8_decode_utf8(s@);
        encode_utf8_decode_utf8(Seq::<char>::empty());
    }
    let n: usize = s.as_bytes().len();
    proof {
        if n == 0 {
            assert(encode_utf8(s@) =~= encode_utf8(Seq::<char>::empty()));
        }
        if s@.len() == 0 {
            assert(s@ =~= Seq::<char>::empty());
        }
    }
    n == 0
}

/// A copy of a text.
pub fn copy_text(s: &str) -> (r: String)
    ensures
        r@ == s@,
{
    s.to_string()
}

/// A copy of an optional text.
pub fn copy_opt(s: &Option<String>) -> (r: Option<String>)
    ensures
        opt_view(r) == opt_view(*s),
{
    match s {
        Some(s) => Some(s.clone()),
        None => None,
    }
}

/// Copies of some texts.
pub fn copy_texts(v: &Vec<String>) -> (r: Vec<String>)
    ensures
        views(r@) == views(v@),
{
    let mut r: Vec<String> = Vec::new();
    for i in 0..v.len()
        invariant
            r@.len() == i,
            forall|j: int| 0 <= j < i ==> r@[j]@ == v@[j]@,
    {
        r.push(v[i].clone());
    }
    assert(views(r@) =~= views(v@));
    r
}

/// Whether a text is among some texts.
pub fn contains_text(v: &Vec<String>, s: &str) -> (r: bool)
    ensures
        r == views(v@).contains(s@),
{
    for i in 0..v.len()
        invariant
            forall|j: int| 0 <= j < i ==> views(v@)[j] != s@,
    {
        if str_eq(v[i].as_str(), s) {
            assert(views(v@)[i as int] == s@);
            return true;
        }
    }
    false
}

// ---------------------------------------------------------------------------
// White space
// ---------------------------------------------------------------------------

/// The Unicode `White_Space` property.
pub open spec fn is_space(c: char) -> bool {
    ||| '\u{9}' <= c <= '\u{d}'
    ||| c == '\u{20}'
    ||| c == '\u{85}'
    ||| c == '\u{a0}'
    ||| c == '\u{1680}'
    ||| '\u{2000}' <= c <= '\u{200a}'
    ||| c == '\u{2028}'
    ||| c == '\u{2029}'
    ||| c == '\u{202f}'
    ||| c == '\u{205f}'
    ||| c == '\u{3000}'
}

pub fn is_whitespace(c: char) -> (r: bool)
    ensures
        r == is_space(c),
{
    ('\u{9}' <= c && c <= '\u{d}') || c == '\u{20}' || c == '\u{85}' || c == '\u{a0}' || c
        == '\u{1680}' || ('\u{2000}' <= c && c <= '\u{200a}') || c == '\u{2028}' || c == '\u{2029}'
        || c == '\u{202f}' || c == '\u{205f}' || c == '\u{3000}'
}

/// A text without its leading white space.
pub open spec fn trim_start(s: Seq<char>) -> Seq<char>
    decreases s.len(),
{
    if s.len() > 0 && is_space(s[0]) {
        trim_start(s.skip(1))
    } else {
        s
    }
}

/// A text without its trailing white space.
pub open spec fn trim_end(s: Seq<char>) -> Seq<char>
    decreases s.len(),
{
    if s.len() > 0 && is_space(s.last()) {
        trim_end(s.drop_last())
    } else {
        s
    }
}

/// A text without the white space at its ends.
pub open spec fn trim(s: Seq<char>) -> Seq<char> {
    trim_end(trim_start(s))
}

/// Nothing but white space.
pub open spec fn is_blank(s: Seq<char>) -> bool {
    forall|i: int| 0 <= i < s.len() ==> is_space(#[trigger] s[i])
}

/// A text trims to nothing exactly when it is white space throughout.
pub proof fn blank_texts_trim_to_nothing(s: Seq<char>)
    ensures
        is_blank(s) <==> trim(s).len() == 0,
{
    lemma_trim_start(s);
    lemma_trim_end(trim_start(s));
    if is_blank(s) {
        if trim_start(s).len() > 0 {
            let k = s.len() - trim_start(s).len();
            assert(trim_start(s)[0] == s[k]);
        }
    } else {
        let i = choose|i: int| 0 <= i < s.len() && !is_space(#[trigger] s[i]);
        let k = s.len() - trim_start(s).len();
        if trim(s).len() == 0 {
            assert(i >= k);
            assert(trim_start(s)[i - k] == s[i]);
        }
    }
}

proof fn lemma_trim_start(s: Seq<char>)
    ensures
        trim_start(s).len() <= s.len(),
        trim_start(s) == s.skip(s.len() - trim_start(s).len()),
        forall|i: int| 0 <= i < s.len() - trim_start(s).len() ==> is_space(#[trigger] s[i]),
        trim_start(s).len() > 0 ==> !is_space(trim_start(s)[0]),
    decreases s.len(),
{
    if s.len() > 0 && is_space(s[0]) {
        let rest = s.skip(1);
        lemma_trim_start(rest);
        let k = rest.len() - trim_start(rest).len();
        assert(rest.skip(k) =~= s.skip(k + 1));
        assert forall|i: int| 0 <= i < k + 1 implies is_space(#[trigger] s[i]) by {
            if i > 0 {
                assert(rest[i - 1] == s[i]);
            }
        }
    } else {
        assert(s.skip(0) =~= s);
    }
}

proof fn lemma_trim_end(s: Seq<char>)
    ensures
        trim_end(s).len() <= s.len(),
        trim_end(s) == s.take(trim_end(s).len() as int),
        forall|i: int| trim_end(s).len() <= i < s.len() ==> is_space(#[trigger] s[i]),
        trim_end(s).len() > 0 ==> !is_space(trim_end(s).last()),
    decreases s.len(),
{
    if s.len() > 0 && is_space(s.last()) {
        let rest = s.drop_last();
        lemma_trim_end(rest);
        let k = trim_end(rest).len() as int;
        assert(rest.take(k) =~= s.take(k));
        assert forall|i: int| k <= i < s.len() implies is_space(#[trigger] s[i]) by {
            if i < rest.len() {
                assert(rest[i] == s[i]);
            }
        }
    } else {
        assert(s.take(s.len() as int) =~= s);
    }
}

/// Where the first character that is not white space stands at or after `i`.
proof fn lemma_trim_start_skips(s: Seq<char>, k: int)
    requires
        0 <= k <= s.len(),
        forall|i: int| 0 <= i < k ==> is_space(#[trigger] s[i]),
        k < s.len() ==> !is_space(s[k]),
    ensures
        trim_start(s) == s.skip(k),
    decreases k,
{
    if k > 0 {
        assert(is_space(s[0]));
        let rest = s.skip(1);
        assert forall|i: int| 0 <= i < k - 1 implies is_space(#[trigger] rest[i]) by {
            assert(rest[i] == s[i + 1]);
        }
        lemma_trim_start_skips(rest, k - 1);
        assert(rest.skip(k - 1) =~= s.skip(k));
    } else {
        assert(s.skip(0) =~= s);
    }
}

proof fn lemma_trim_end_takes(s: Seq<char>, k: int)
    requires
        0 <= k <= s.len(),
        forall|i: int| k <= i < s.len() ==> is_space(#[trigger] s[i]),
        k > 0 ==> !is_space(s[k - 1]),
    ensures
        trim_end(s) == s.take(k),
    decreases s.len() - k,
{
    if k < s.len() {
        assert(is_space(s[s.len() - 1]));
        let rest = s.drop_last();
        lemma_trim_end_takes(rest, k);
        assert(rest.take(k) =~= s.take(k));
    } else {
        assert(s.take(k) =~= s);
    }
}

/// The text without the white space at its ends.
pub fn trimmed(s: &str) -> (r: String)
    ensures
        r@ == trim(s@),
{
    let v = chars_of(s);
    let mut lo: usize = 0;
    while lo < v.len() && is_whitespace(v[lo])
        invariant
            lo <= v@.len(),
            v@ == s@,
            forall|i: int| 0 <= i < lo ==> is_space(#[trigger] s@[i]),
        decreases v.len() - lo,
    {
        lo += 1;
    }
    let mut hi: usize = v.len();
    proof {
        lemma_trim_start_skips(s@, lo as int);
    }
    while lo < hi && is_whitespace(v[hi - 1])
        invariant
            lo <= hi <= v@.len(),
            v@ == s@,
            forall|i: int| hi <= i < s@.len() ==> is_space(#[trigger] s@[i]),
        decreases hi,
    {
        hi -= 1;
    }
    proof {
        let t = s@.skip(lo as int);
        lemma_trim_end_takes(t, hi - lo);
        assert(t.take(hi - lo) =~= s@.subrange(lo as int, hi as int));
    }
    text_of(&v, lo, hi)
}

/// Whether a text is white space throughout.
pub fn blank(s: &str) -> (r: bool)
    ensures
        r == is_blank(s@),
{
    let v = chars_of(s);
    for i in 0..v.len()
        invariant
            v@ == s@,
            forall|j: int| 0 <= j < i ==> is_space(#[trigger] s@[j]),
    {
        if !is_whitespace(v[i]) {
            assert(!is_space(s@[i as int]));
            return false;
        }
    }
    true
}

// ---------------------------------------------------------------------------
// Searching
// ---------------------------------------------------------------------------

/// `pat` stands in `s` at `i`.
pub open spec fn occurs_at(s: Seq<char>, pat: Seq<char>, i: int) -> bool {
    0 <= i && i + pat.len() <= s.len() && s.subrange(i, i + pat.len()) == pat
}

/// The first place at or after `i` where `pat` stands in `s`.
pub open spec fn find_from(s: Seq<char>, pat: Seq<char>, i: nat) -> Option<nat>
    decreases s.len() - i,
{
    if i + pat.len() > s.len() {
        None
    } else if occurs_at(s, pat, i as int) {
        Some(i)
    } else if i < s.len() {
        find_from(s, pat, i + 1)
    } else {
        None
    }
}

pub open spec fn find(s: Seq<char>, pat: Seq<char>) -> Option<nat> {
    find_from(s, pat, 0)
}

pub open spec fn starts_with(s: Seq<char>, pat: Seq<char>) -> bool {
    occurs_at(s, pat, 0)
}

pub proof fn lemma_find_from(s: Seq<char>, pat: Seq<char>, i: nat)
    ensures
        match find_from(s, pat, i) {
            Some(k) => {
                &&& i <= k
                &&& occurs_at(s, pat, k as int)
                &&& forall|j: int| i <= j < k ==> !occurs_at(s, pat, j)
            },
            None => forall|j: int| i <= j ==> !occurs_at(s, pat, j),
        },
    decreases s.len() - i,
{
    if i + pat.len() <= s.len() && !occurs_at(s, pat, i as int) && i < s.len() {
        lemma_find_from(s, pat, i + 1);
    }
}

/// What stands in a text stands in a longer one at the same place first.
pub proof fn lemma_find_in_longer(s: Seq<char>, tail: Seq<char>, pat: Seq<char>)
    requires
        find(s, pat) is Some,
    ensures
        find(s + tail, pat) == find(s, pat),
{
    lemma_find_from(s, pat, 0);
    lemma_find_from(s + tail, pat, 0);
    let k = find(s, pat).unwrap();
    assert((s + tail).subrange(k as int, (k + pat.len()) as int) =~= s.subrange(
        k as int,
        (k + pat.len()) as int,
    ));
    assert(occurs_at(s + tail, pat, k as int));
    let f = find(s + tail, pat).unwrap();
    if f < k {
        assert((s + tail).subrange(f as int, (f + pat.len()) as int) =~= s.subrange(
            f as int,
            (f + pat.len()) as int,
        ));
        assert(occurs_at(s, pat, f as int));
    }
}

/// Whether `pat` stands in `s` at `i`.
pub fn matches_at(s: &Vec<char>, pat: &Vec<char>, i: usize) -> (r: bool)
    ensures
        r == occurs_at(s@, pat@, i as int),
{
    if pat.len() > s.len() || i > s.len() - pat.len() {
        return false;
    }
    let mut j: usize = 0;
    while j < pat.len()
        invariant
            j <= pat@.len(),
            i + pat@.len() <= s.len(),
            forall|k: int| 0 <= k < j ==> s@[i + k] == pat@[k],
        decreases pat.len() - j,
    {
        if s[i + j] != pat[j] {
            assert(s@.subrange(i as int, i + pat@.len())[j as int] != pat@[j as int]);
            return false;
        }
        j += 1;
    }
    assert(s@.subrange(i as int, i + pat@.len()) =~= pat@);
    true
}

/// The first place at or after `from` where `pat` stands in `s`.
pub fn find_chars(s: &Vec<char>, pat: &Vec<char>, from: usize) -> (r: Option<usize>)
    ensures
        match r {
            Some(k) => find_from(s@, pat@, from as nat) == Some(k as nat),
            None => find_from(s@, pat@, from as nat) is None,
        },
{
    let mut i: usize = from;
    while i < s.len()
        invariant
            from <= i,
            i <= s@.len() || i == from,
            find_from(s@, pat@, from as nat) == find_from(s@, pat@, i as nat),
        decreases s.len() - i,
    {
        if matches_at(s, pat, i) {
            return Some(i);
        }
        i += 1;
    }
    if matches_at(s, pat, i) {
        Some(i)
    } else {
        None
    }
}

/// What follows `pat` at the start of a text.
pub fn strip_prefix(s: &str, pat: &str) -> (r: Option<String>)
    ensures
        match r {
            Some(rest) => starts_with(s@, pat@) && rest@ == s@.skip(pat@.len() as int),
            None => !starts_with(s@, pat@),
        },
{
    let v = chars_of(s);
    let p = chars_of(pat);
    if matches_at(&v, &p, 0) {
        assert(s@.subrange(pat@.len() as int, s@.len() as int) =~= s@.skip(pat@.len() as int));
        Some(text_of(&v, p.len(), v.len()))
    } else {
        None
    }
}

// ---------------------------------------------------------------------------
// Removing and joining
// ---------------------------------------------------------------------------

/// A text without the occurrences of `pat`, taken from the left and not
/// overlapping.
pub open spec fn without(s: Seq<char>, pat: Seq<char>) -> Seq<char>
    decreases s.len(),
{
    if pat.len() == 0 {
        s
    } else {
        match find(s, pat) {
            None => s,
            Some(k) => if k + pat.len() <= s.len() {
                s.take(k as int) + without(s.skip((k + pat.len()) as int), pat)
            } else {
                s
            },
        }
    }
}

/// A text without the occurrences of each pattern in turn.
pub open spec fn without_all(s: Seq<char>, pats: Seq<Seq<char>>) -> Seq<char>
    decreases pats.len(),
{
    if pats.len() == 0 {
        s
    } else {
        without(without_all(s, pats.drop_last()), pats.last())
    }
}

pub proof fn lemma_find_from_skip(s: Seq<char>, pat: Seq<char>, base: nat, i: nat)
    requires
        base + i <= s.len(),
    ensures
        find_from(s, pat, base + i) == (match find_from(s.skip(base as int), pat, i) {
            Some(k) => Some(k + base),
            None => None::<nat>,
        }),
    decreases s.len() - i,
{
    let t = s.skip(base as int);
    if i + pat.len() <= t.len() {
        assert(s.subrange((base + i) as int, (base + i + pat.len()) as int) =~= t.subrange(
            i as int,
            (i + pat.len()) as int,
        ));
        if !occurs_at(t, pat, i as int) && i < t.len() {
            lemma_find_from_skip(s, pat, base, i + 1);
        }
    }
}

/// Removes the occurrences of a pattern.
pub fn remove_pattern(s: &str, pat: &str) -> (r: String)
    ensures
        r@ == without(s@, pat@),
{
    let v = chars_of(s);
    let p = chars_of(pat);
    if p.len() == 0 {
        return copy_text(s);
    }
    let mut out = String::new();
    let mut base: usize = 0;
    assert(s@.skip(0) =~= s@);
    loop
        invariant
            v@ == s@,
            p@ == pat@,
            p@.len() > 0,
            base <= v@.len(),
            out@ + without(s@.skip(base as int), pat@) == without(s@, pat@),
        decreases v@.len() - base,
    {
        let ghost t = s@.skip(base as int);
        let hit = find_chars(&v, &p, base);
        proof {
            lemma_find_from_skip(s@, pat@, base as nat, 0);
            lemma_find_from(t, pat@, 0);
        }
        match hit {
            None => {
                let tail = text_of(&v, base, v.len());
                assert(tail@ =~= t);
                out.append(tail.as_str());
                return out;
            },
            Some(k) => {
                let piece = text_of(&v, base, k);
                let ghost before = out@;
                out.append(piece.as_str());
                proof {
                    assert(piece@ =~= t.take(k - base));
                    let next = (k + pat@.len()) as int;
                    assert(t.skip(next - base) =~= s@.skip(next));
                    assert(before + (piece@ + without(s@.skip(next), pat@)) =~= out@ + without(
                        s@.skip(next),
                        pat@,
                    ));
                }
                assert(k + pat@.len() <= v.len());
                base = k + p.len();
            },
        }
    }
}

/// Removes the occurrences of each pattern in turn.
pub fn remove_patterns(s: &str, pats: &Vec<String>) -> (r: String)
    ensures
        r@ == without_all(s@, views(pats@)),
{
    let mut r = copy_text(s);
    let ghost all = views(pats@);
    for i in 0..pats.len()
        invariant
            all == views(pats@),
            r@ == without_all(s@, all.take(i as int)),
    {
        r = remove_pattern(r.as_str(), pats[i].as_str());
        assert(all.take(i + 1).drop_last() =~= all.take(i as int));
    }
    assert(all.take(all.len() as int) =~= all);
    r
}

/// The texts one after the other with `sep` between them.
pub open spec fn join(parts: Seq<Seq<char>>, sep: Seq<char>) -> Seq<char>
    decreases parts.len(),
{
    if parts.len() == 0 {
        Seq::empty()
    } else if parts.len() == 1 {
        parts[0]
    } else {
        join(parts.drop_last(), sep) + sep + parts.last()
    }
}

/// Joins some texts.
pub fn joined(parts: &Vec<String>, sep: &str) -> (r: String)
    ensures
        r@ == join(views(parts@), sep@),
{
    let mut r = String::new();
    let ghost all = views(parts@);
    for i in 0..parts.len()
        invariant
            all == views(parts@),
            r@ == join(all.take(i as int), sep@),
    {
        assert(all.take(i + 1).drop_last() =~= all.take(i as int));
        if i > 0 {
            r.append(sep);
        }
        r.append(parts[i].as_str());
        assert(r@ =~= join(all.take(i + 1), sep@));
    }
    assert(all.take(all.len() as int) =~= all);
    r
}

/// One text after the other.
pub fn concat2(a: &str, b: &str) -> (r: String)
    ensures
        r@ == a@ + b@,
{
    let mut r = copy_text(a);
    r.append(b);
    r
}

/// Three texts one after the other.
pub fn concat3(a: &str, b: &str, c: &str) -> (r: String)
    ensures
        r@ == a@ + b@ + c@,
{
    let mut r = concat2(a, b);
    r.append(c);
    r
}

// ---------------------------------------------------------------------------
// Numbers
// ---------------------------------------------------------------------------

/// The digit for a value below sixteen.
pub open spec fn digit(d: nat) -> char {
    if d < 10 {
        (48 + d) as char
    } else {
        (87 + d) as char
    }
}

/// A natural number written in a base.
pub open spec fn numeral(n: nat, base: nat) -> Seq<char>
    decreases n,
{
    if base < 2 || n < base {
        seq![digit(n)]
    } else {
        proof {
            assert(n / base < n) by (nonlinear_arith)
                requires
                    n >= base,
                    base >= 2,
            ;
        }
        numeral(n / base, base).push(digit(n % base))
    }
}

/// A natural number in decimal.
pub open spec fn decimal(n: nat) -> Seq<char> {
    numeral(n, 10)
}

/// A natural number in lower-case hexadecimal.
pub open spec fn hex(n: nat) -> Seq<char> {
    numeral(n, 16)
}

/// An integer in decimal.
pub open spec fn signed_decimal(n: int) -> Seq<char> {
    if n < 0 {
        seq!['-'] + decimal((-n) as nat)
    } else {
        decimal(n as nat)
    }
}

/// A text with zeros in front, up to a width.
pub open spec fn zero_padded(s: Seq<char>, width: nat) -> Seq<char> {
    if s.len() >= width {
        s
    } else {
        Seq::new((width - s.len()) as nat, |i: int| '0') + s
    }
}

fn digit_char(d: u128) -> (c: char)
    requires
        d < 16,
    ensures
        c == digit(d as nat),
{
    if d < 10 {
        (48 + d as u8) as char
    } else {
        (87 + d as u8) as char
    }
}

/// Writes a number in a base.
pub fn format_base(n: u128, base: u128) -> (r: String)
    requires
        2 <= base <= 16,
    ensures
        r@ == numeral(n as nat, base as nat),
    decreases n,
{
    let mut r: String;
    if n < base {
        r = String::new();
        r.push(digit_char(n));
        assert(r@ =~= numeral(n as nat, base as nat));
    } else {
        assert(n / base < n) by (nonlinear_arith)
            requires
                n >= base,
                base >= 2,
        ;
        r = format_base(n / base, base);
        assert(n % base < 16);
        r.push(digit_char(n % base));
    }
    r
}

pub fn format_u64(n: u64) -> (r: String)
    ensures
        r@ == decimal(n as nat),
{
    format_base(n as u128, 10)
}

pub fn format_usize(n: usize) -> (r: String)
    ensures
        r@ == decimal(n as nat),
{
    format_base(n as u128, 10)
}

pub fn format_i32(n: i32) -> (r: String)
    ensures
        r@ == signed_decimal(n as int),
{
    if n < 0 {
        let m: i64 = -(n as i64);
        let mut r = String::new();
        r.push('-');
        let tail = format_base(m as u128, 10);
        r.append(tail.as_str());
        assert(r@ =~= signed_decimal(n as int));
        r
    } else {
        format_base(n as u128, 10)
    }
}

/// Writes a number in hexadecimal, with zeros in front up to a width.
pub fn format_hex_padded(n: u128, width: usize) -> (r: String)
    ensures
        r@ == zero_padded(hex(n as nat), width as nat),
{
    let body = format_base(n, 16);
    let digits = chars_of(body.as_str());
    let mut r = String::new();
    if digits.len() < width {
        let zeros: usize = width - digits.len();
        for i in 0..zeros
            invariant
                r@ == Seq::new(i as nat, |j: int| '0'),
        {
            r.push('0');
            assert(r@ =~= Seq::new((i + 1) as nat, |j: int| '0'));
        }
    }
    r.append(body.as_str());
    assert(r@ =~= zero_padded(hex(n as nat), width as nat));
    r
}

// ---------------------------------------------------------------------------
// Reading numbers back
// ---------------------------------------------------------------------------

/// What a hexadecimal digit stands for.
pub open spec fn digit_value(c: char) -> nat {
    if c >= 'a' {
        (c as int - 87) as nat
    } else {
        (c as int - 48) as nat
    }
}

/// The number that hexadecimal digits write.
pub open spec fn hex_value(s: Seq<char>) -> nat
    decreases s.len(),
{
    if s.len() == 0 {
        0
    } else {
        hex_value(s.drop_last()) * 16 + digit_value(s.last())
    }
}

/// What is written in hexadecimal reads back as it was.
pub proof fn hexadecimal_reads_back(n: nat)
    ensures
        hex_value(hex(n)) == n,
    decreases n,
{
    if n < 16 {
        let s = seq![digit(n)];
        assert(s.drop_last() =~= Seq::empty());
        assert(hex_value(s.drop_last()) == 0);
        assert(hex(n) == s);
    } else {
        hexadecimal_reads_back(n / 16);
        assert(hex(n).drop_last() =~= hex(n / 16));
    }
}

/// Zeros in front do not change the number that the digits write.
pub proof fn padding_keeps_the_number(s: Seq<char>, width: nat)
    ensures
        hex_value(zero_padded(s, width)) == hex_value(s),
{
    if s.len() < width {
        lemma_zeros_in_front((width - s.len()) as nat, s);
    }
}

proof fn lemma_zeros_in_front(n: nat, s: Seq<char>)
    ensures
        hex_value(Seq::new(n, |i: int| '0') + s) == hex_value(s),
    decreases n + s.len(),
{
    let zeros = Seq::new(n, |i: int| '0');
    if s.len() > 0 {
        assert((zeros + s).drop_last() =~= zeros + s.drop_last());
        lemma_zeros_in_front(n, s.drop_last());
    } else if n > 0 {
        let fewer = Seq::new((n - 1) as nat, |i: int| '0');
        assert((zeros + s).drop_last() =~= fewer + s);
        lemma_zeros_in_front((n - 1) as nat, s);
    } else {
        assert(zeros + s =~= s);
    }
}

/// Sixteen to a power.
pub open spec fn sixteens(k: nat) -> nat
    decreases k,
{
    if k == 0 {
        1
    } else {
        16 * sixteens((k - 1) as nat)
    }
}

/// A number below sixteen to a power has at most so many digits.
pub proof fn hexadecimal_length(n: nat, k: nat)
    requires
        k > 0,
        n < sixteens(k),
    ensures
        0 < hex(n).len() <= k,
    decreases k,
{
    if n >= 16 {
        if k == 1 {
            assert(sixteens(0) == 1);
        } else {
            hexadecimal_length(n / 16, (k - 1) as nat);
        }
    }
}

} // verus!
