//! Laws of texts: what trimming, joining and removing leave of their inputs, and how
//! numbers are written.

use vstd::prelude::*;

use crate::compat::ProviderCompat;
use crate::text::{
    decimal, digit, digit_value, find, hex, is_blank, is_space, join, lemma_find_from, numeral,
    occurs_at, signed_decimal, starts_with, trim, trim_end, trim_start, views, without, without_all,
    zero_padded,
};
use crate::wire::stripped_text;

verus! {

// ---------------------------------------------------------------------------
// White space
// ---------------------------------------------------------------------------

/// Blanks, tabs and the ends of lines are white space; what prints in ASCII is not.
pub proof fn nothing_printed_is_white_space(c: char)
    ensures
        c == ' ' || c == '\t' || c == '\n' || c == '\r' ==> is_space(c),
        '!' <= c <= '~' ==> !is_space(c),
        c < '\t' ==> !is_space(c),
{
}

proof fn lemma_blank_start(a: Seq<char>, rest: Seq<char>)
    requires
        is_blank(a),
        rest.len() > 0 ==> !is_space(rest[0]),
    ensures
        trim_start(a + rest) == rest,
    decreases a.len(),
{
    if a.len() == 0 {
        assert(a + rest =~= rest);
    } else {
        assert(is_space(a[0]));
        assert((a + rest)[0] == a[0]);
        assert((a + rest).skip(1) =~= a.skip(1) + rest);
        assert forall|i: int| 0 <= i < a.skip(1).len() implies is_space(#[trigger] a.skip(1)[i]) by {
            assert(is_space(a[i + 1]));
        }
        lemma_blank_start(a.skip(1), rest);
    }
}

proof fn lemma_blank_end(front: Seq<char>, b: Seq<char>)
    requires
        is_blank(b),
        front.len() > 0 ==> !is_space(front.last()),
    ensures
        trim_end(front + b) == front,
    decreases b.len(),
{
    if b.len() == 0 {
        assert(front + b =~= front);
    } else {
        assert(is_space(b[b.len() - 1]));
        assert((front + b).last() == b[b.len() - 1]);
        assert((front + b).drop_last() =~= front + b.drop_last());
        assert forall|i: int| 0 <= i < b.drop_last().len() implies is_space(
            #[trigger] b.drop_last()[i],
        ) by {
            assert(is_space(b[i]));
        }
        lemma_blank_end(front, b.drop_last());
    }
}

/// A text between white space is what trimming leaves, whole and unchanged.
pub proof fn trimming_leaves_what_is_between(a: Seq<char>, text: Seq<char>, b: Seq<char>)
    requires
        is_blank(a),
        is_blank(b),
        text.len() > 0,
        !is_space(text[0]),
        !is_space(text[text.len() - 1]),
    ensures
        trim(a + text + b) == text,
{
    assert(a + text + b =~= a + (text + b));
    assert((text + b)[0] == text[0]);
    lemma_blank_start(a, text + b);
    lemma_blank_end(text, b);
}

// ---------------------------------------------------------------------------
// Joining and removing
// ---------------------------------------------------------------------------

/// Joining puts the texts one after the other, with the separator between two and
/// nowhere else.
pub proof fn joined_texts_stand_between_separators(
    a: Seq<Seq<char>>,
    b: Seq<Seq<char>>,
    text: Seq<char>,
    sep: Seq<char>,
)
    ensures
        join(Seq::empty(), sep) == Seq::<char>::empty(),
        join(seq![text], sep) == text,
        a.len() > 0 && b.len() > 0 ==> join(a + b, sep) == join(a, sep) + sep + join(b, sep),
    decreases b.len(),
{
    if a.len() > 0 && b.len() > 0 {
        assert((a + b).drop_last() =~= a + b.drop_last());
        assert((a + b).last() == b.last());
        if b.len() == 1 {
            assert(a + b.drop_last() =~= a);
            assert(join(a + b, sep) =~= join(a, sep) + sep + join(b, sep));
        } else {
            joined_texts_stand_between_separators(a, b.drop_last(), text, sep);
            assert(join(a + b, sep) =~= join(a, sep) + sep + join(b, sep));
        }
    }
}

/// Removing a pattern that does not occur changes nothing; removing one takes out the
/// first occurrence, keeps what is in front of it and goes on behind it.
pub proof fn removing_keeps_the_rest(a: Seq<char>, pat: Seq<char>, b: Seq<char>)
    requires
        pat.len() > 0,
    ensures
        (forall|i: int| !(#[trigger] occurs_at(a, pat, i))) ==> without(a, pat) == a,
        (forall|i: int| i < a.len() ==> !(#[trigger] occurs_at(a + pat + b, pat, i))) ==> without(
            a + pat + b,
            pat,
        ) == a + without(b, pat),
{
    lemma_find_from(a, pat, 0);
    let s = a + pat + b;
    lemma_find_from(s, pat, 0);
    if forall|i: int| i < a.len() ==> !(#[trigger] occurs_at(s, pat, i)) {
        assert(s.subrange(a.len() as int, (a.len() + pat.len()) as int) =~= pat);
        assert(occurs_at(s, pat, a.len() as int));
        assert(find(s, pat) == Some(a.len()));
        assert(s.take(a.len() as int) =~= a);
        assert(s.skip((a.len() + pat.len()) as int) =~= b);
    }
}

/// Patterns are removed one after the other, the first one first.
pub proof fn patterns_are_removed_in_turn(s: Seq<char>, pat: Seq<char>, rest: Seq<Seq<char>>)
    ensures
        without_all(s, Seq::empty()) == s,
        without_all(s, seq![pat] + rest) == without_all(without(s, pat), rest),
    decreases rest.len(),
{
    if rest.len() == 0 {
        assert((seq![pat] + rest).drop_last() =~= Seq::empty());
        assert(without_all(s, (seq![pat] + rest).drop_last()) == s);
    } else {
        assert((seq![pat] + rest).drop_last() =~= seq![pat] + rest.drop_last());
        assert((seq![pat] + rest).last() == rest.last());
        patterns_are_removed_in_turn(s, pat, rest.drop_last());
    }
}

/// A text goes out as it is where no patterns are configured, and where none of them
/// occurs in it.
pub proof fn texts_without_patterns_go_out_unchanged(text: Seq<char>, compat: ProviderCompat)
    requires
        compat.messages.strip_patterns matches Some(patterns) ==> forall|k: int, i: int|
            0 <= k < patterns@.len() ==> !(#[trigger] occurs_at(text, views(patterns@)[k], i)),
    ensures
        stripped_text(text, compat) == text,
{
    if let Some(patterns) = compat.messages.strip_patterns {
        lemma_absent_patterns(text, views(patterns@));
    }
}

proof fn lemma_absent_patterns(text: Seq<char>, pats: Seq<Seq<char>>)
    requires
        forall|k: int, i: int| 0 <= k < pats.len() ==> !(#[trigger] occurs_at(text, pats[k], i)),
    ensures
        without_all(text, pats) == text,
    decreases pats.len(),
{
    if pats.len() > 0 {
        let front = pats.drop_last();
        assert forall|k: int, i: int| 0 <= k < front.len() implies !(#[trigger] occurs_at(
            text,
            front[k],
            i,
        )) by {
            assert(!occurs_at(text, pats[k], i));
        }
        lemma_absent_patterns(text, front);
        let pat = pats[pats.len() - 1];
        assert(!occurs_at(text, pat, 0));
        assert forall|i: int| !(#[trigger] occurs_at(text, pat, i)) by {
            assert(!occurs_at(text, pats[pats.len() - 1], i));
        }
        if pat.len() > 0 {
            removing_keeps_the_rest(text, pat, Seq::empty());
        }
    }
}

// ---------------------------------------------------------------------------
// Numbers
// ---------------------------------------------------------------------------

/// The number that decimal digits stand for.
pub open spec fn decimal_value(s: Seq<char>) -> int
    decreases s.len(),
{
    if s.len() == 0 {
        0
    } else {
        10 * decimal_value(s.drop_last()) + (s.last() as int - '0' as int)
    }
}

/// A number in decimal is made of digits that stand for it, without a zero in front.
pub proof fn decimals_read_back(n: nat)
    ensures
        decimal_value(decimal(n)) == n,
        decimal(n).len() > 0,
        forall|i: int| 0 <= i < decimal(n).len() ==> '0' <= #[trigger] decimal(n)[i] <= '9',
        n > 0 ==> decimal(n)[0] != '0',
    decreases n,
{
    if n < 10 {
        let s = seq![digit(n)];
        assert(decimal(n) == s);
        assert(s.drop_last() =~= Seq::empty());
        assert(decimal_value(s.drop_last()) == 0);
    } else {
        decimals_read_back(n / 10);
        let s = decimal(n);
        assert(s == numeral(n / 10, 10).push(digit(n % 10)));
        assert(s.drop_last() =~= decimal(n / 10));
        assert forall|i: int| 0 <= i < s.len() implies '0' <= #[trigger] s[i] <= '9' by {
            if i < s.len() - 1 {
                assert(s[i] == decimal(n / 10)[i]);
            }
        }
        assert(s[0] == decimal(n / 10)[0]);
    }
}

/// A negative number has a sign in front of its size.
pub proof fn signs_stand_in_front(n: int)
    ensures
        n >= 0 ==> decimal_value(signed_decimal(n)) == n,
        n < 0 ==> signed_decimal(n).len() > 1 && signed_decimal(n)[0] == '-' && decimal_value(
            signed_decimal(n).skip(1),
        ) == -n,
{
    if n < 0 {
        decimals_read_back((-n) as nat);
        assert(signed_decimal(n).skip(1) =~= decimal((-n) as nat));
    } else {
        decimals_read_back(n as nat);
    }
}

/// A text is found at its start exactly where it stands there, whole.
pub proof fn starts_are_whole(pat: Seq<char>, rest: Seq<char>, s: Seq<char>)
    ensures
        starts_with(pat + rest, pat),
        starts_with(s, pat) ==> s.len() >= pat.len() && s == pat + s.skip(pat.len() as int),
{
    assert((pat + rest).subrange(0, pat.len() as int) =~= pat);
    if starts_with(s, pat) {
        assert(s =~= s.subrange(0, pat.len() as int) + s.skip(pat.len() as int));
    }
}

proof fn lemma_hex_digits(n: nat)
    ensures
        forall|i: int|
            0 <= i < hex(n).len() ==> '0' <= #[trigger] hex(n)[i] <= '9' || 'a' <= hex(n)[i] <= 'f',
    decreases n,
{
    if n >= 16 {
        lemma_hex_digits(n / 16);
        let s = hex(n);
        assert(s == numeral(n / 16, 16).push(digit(n % 16)));
        assert forall|i: int| 0 <= i < s.len() implies '0' <= #[trigger] s[i] <= '9' || 'a' <= s[i]
            <= 'f' by {
            if i < s.len() - 1 {
                assert(s[i] == hex(n / 16)[i]);
            }
        }
    }
}

/// Hexadecimal digits are the ten of decimal and six small letters, in this order.
pub proof fn hexadecimals_are_in_lower_case(n: nat, d: nat)
    requires
        d < 16,
    ensures
        forall|i: int|
            0 <= i < hex(n).len() ==> '0' <= #[trigger] hex(n)[i] <= '9' || 'a' <= hex(n)[i] <= 'f',
        hex(d) == seq![
            if d < 10 {
                ('0' as int + d) as char
            } else {
                ('a' as int + d - 10) as char
            },
        ],
        digit_value(hex(d)[0]) == d,
{
    lemma_hex_digits(n);
}

/// Padding puts zeros in front of a text that is too short, and changes no other.
pub proof fn padding_stands_in_front(s: Seq<char>, width: nat)
    ensures
        s.len() >= width ==> zero_padded(s, width) == s,
        s.len() < width ==> {
            let r = zero_padded(s, width);
            &&& r.len() == width
            &&& r.skip(width - s.len()) == s
            &&& forall|i: int| 0 <= i < width - s.len() ==> #[trigger] r[i] == '0'
        },
{
    if s.len() < width {
        assert(zero_padded(s, width).skip(width - s.len()) =~= s);
    }
}

} // verus!
