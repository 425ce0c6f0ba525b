//! Text operations that are proved here: equality of texts, whitespace, how
//! it is trimmed off and which tokens it separates, the first line of a text,
//! and the decimal digits of a number.

use vstd::prelude::*;
use vstd::string::*;
use vstd::utf8::{encode_utf8, encode_utf8_decode_utf8};
use crate::models::texts;

verus! {

/// Whether two texts hold the same characters.
pub fn text_eq(a: &str, b: &str) -> (r: bool)
    ensures
        r == (a@ == b@),
{
    let x = a.as_bytes();
    let y = b.as_bytes();
    proof {
        encode_utf8_decode_utf8(a@);
        encode_utf8_decode_utf8(b@);
    }
    if x.len() != y.len() {
        return false;
    }
    let mut i: usize = 0;
    while i < x.len()
        invariant
            0 <= i <= x@.len(),
            x@.len() == y@.len(),
            x@ == encode_utf8(a@),
            y@ == encode_utf8(b@),
            forall|j: int| 0 <= j < i ==> x@[j] == y@[j],
        decreases x@.len() - i,
    {
        if x[i] != y[i] {
            return false;
        }
        i = i + 1;
    }
    assert(x@ =~= y@);
    true
}

/// The character is whitespace: it has the Unicode property `White_Space`.
pub open spec fn is_space(c: char) -> bool {
    let u = c as u32;
    ||| 0x09 <= u <= 0x0D
    ||| u == 0x20
    ||| u == 0x85
    ||| u == 0xA0
    ||| u == 0x1680
    ||| 0x2000 <= u <= 0x200A
    ||| u == 0x2028
    ||| u == 0x2029
    ||| u == 0x202F
    ||| u == 0x205F
    ||| u == 0x3000
}

/// Whether the character is whitespace.
pub fn is_whitespace(c: char) -> (r: bool)
    ensures
        r == is_space(c),
{
    let u = c as u32;
    (0x09 <= u && u <= 0x0D) || u == 0x20 || u == 0x85 || u == 0xA0 || u == 0x1680 || (0x2000 <= u
        && u <= 0x200A) || u == 0x2028 || u == 0x2029 || u == 0x202F || u == 0x205F || u == 0x3000
}

/// The text holds nothing but whitespace.
pub open spec fn all_space(s: Seq<char>) -> bool {
    forall|i: int| 0 <= i < s.len() ==> is_space(#[trigger] s[i])
}

/// Whether the text holds nothing but whitespace.
pub fn is_blank(s: &str) -> (r: bool)
    ensures
        r == all_space(s@),
{
    let n = s.unicode_len();
    let mut i: usize = 0;
    while i < n
        invariant
            0 <= i <= n,
            n == s@.len(),
            forall|j: int| 0 <= j < i ==> is_space(#[trigger] s@[j]),
        decreases n - i,
    {
        if !is_whitespace(s.get_char(i)) {
            return false;
        }
        i = i + 1;
    }
    true
}

/// How many characters of whitespace the text begins with.
pub open spec fn leading_spaces(s: Seq<char>) -> int
    decreases s.len(),
{
    if s.len() > 0 && is_space(s[0]) {
        1 + leading_spaces(s.skip(1))
    } else {
        0
    }
}

/// The text without the whitespace at its end.
pub open spec fn without_trailing(s: Seq<char>) -> Seq<char>
    decreases s.len(),
{
    if s.len() > 0 && is_space(s.last()) {
        without_trailing(s.drop_last())
    } else {
        s
    }
}

/// The text without the whitespace at its end and at its start.
pub open spec fn trimmed(s: Seq<char>) -> Seq<char> {
    without_trailing(s).skip(leading_spaces(without_trailing(s)))
}

/// The text without the whitespace around it.
pub fn trim(s: &str) -> (r: &str)
    ensures
        r@ == trimmed(s@),
{
    let n = s.unicode_len();
    let mut end: usize = n;
    proof {
        assert(s@.take(n as int) =~= s@);
    }
    while end > 0 && is_whitespace(s.get_char(end - 1))
        invariant
            0 <= end <= n,
            n == s@.len(),
            without_trailing(s@) == without_trailing(s@.take(end as int)),
        decreases end,
    {
        proof {
            assert(s@.take(end as int).last() == s@[end as int - 1]);
            assert(s@.take(end as int).drop_last() =~= s@.take(end as int - 1));
        }
        end = end - 1;
    }
    let ghost kept = s@.take(end as int);
    proof {
        if end > 0 {
            assert(kept.last() == s@[end as int - 1]);
        }
        assert(without_trailing(s@) == kept);
        assert(kept.skip(0) =~= kept);
    }
    let mut start: usize = 0;
    while start < end && is_whitespace(s.get_char(start))
        invariant
            0 <= start <= end <= n,
            n == s@.len(),
            kept == s@.take(end as int),
            leading_spaces(kept) == start + leading_spaces(kept.skip(start as int)),
        decreases end - start,
    {
        proof {
            assert(kept.skip(start as int)[0] == s@[start as int]);
            assert(kept.skip(start as int).skip(1) =~= kept.skip(start as int + 1));
        }
        start = start + 1;
    }
    proof {
        if start < end {
            assert(kept.skip(start as int)[0] == s@[start as int]);
        }
        assert(s@.subrange(start as int, end as int) =~= kept.skip(start as int));
    }
    s.substring_char(start, end)
}

/// What a reading of a text has found so far: the tokens that are complete,
/// and the characters of the token that is not complete yet.
pub struct TokenScan {
    pub tokens: Seq<Seq<char>>,
    pub current: Seq<char>,
}

/// The scan after one more character: whitespace ends the current token, if
/// there is one; any other character prolongs it.
pub open spec fn token_step(st: TokenScan, c: char) -> TokenScan {
    if is_space(c) {
        if st.current.len() > 0 {
            TokenScan { tokens: st.tokens.push(st.current), current: Seq::empty() }
        } else {
            st
        }
    } else {
        TokenScan { tokens: st.tokens, current: st.current.push(c) }
    }
}

/// The scan of a text.
pub open spec fn token_scan(s: Seq<char>) -> TokenScan
    decreases s.len(),
{
    if s.len() == 0 {
        TokenScan { tokens: Seq::empty(), current: Seq::empty() }
    } else {
        token_step(token_scan(s.drop_last()), s.last())
    }
}

/// The tokens of a text: its maximal runs of characters that are no
/// whitespace, in order.
pub open spec fn whitespace_tokens(s: Seq<char>) -> Seq<Seq<char>> {
    let st = token_scan(s);
    if st.current.len() > 0 {
        st.tokens.push(st.current)
    } else {
        st.tokens
    }
}

/// Every token holds a character and no whitespace, and a text of whitespace
/// alone, the empty text among them, has no token.
pub proof fn lemma_tokens(s: Seq<char>)
    ensures
        forall|i: int|
            0 <= i < whitespace_tokens(s).len() ==> (#[trigger] whitespace_tokens(s)[i]).len() > 0
                && forall|j: int|
                0 <= j < whitespace_tokens(s)[i].len() ==> !is_space(whitespace_tokens(s)[i][j]),
        all_space(s) <==> whitespace_tokens(s).len() == 0,
{
    lemma_token_scan(s);
}

/// The complete tokens and the current one hold no whitespace, the complete
/// ones hold a character each, and nothing was found yet exactly where all
/// was whitespace.
pub proof fn lemma_token_scan(s: Seq<char>)
    ensures
        forall|i: int|
            0 <= i < token_scan(s).tokens.len() ==> (#[trigger] token_scan(s).tokens[i]).len() > 0
                && forall|j: int|
                0 <= j < token_scan(s).tokens[i].len() ==> !is_space(token_scan(s).tokens[i][j]),
        forall|j: int| 0 <= j < token_scan(s).current.len() ==> !is_space(token_scan(s).current[j]),
        all_space(s) <==> token_scan(s).tokens.len() == 0 && token_scan(s).current.len() == 0,
    decreases s.len(),
{
    if s.len() > 0 {
        let init = s.drop_last();
        lemma_token_scan(init);
        assert(s[s.len() - 1] == s.last());
        if all_space(s) {
            assert forall|i: int| 0 <= i < init.len() implies is_space(#[trigger] init[i]) by {
                assert(init[i] == s[i]);
            }
        }
        if all_space(init) && is_space(s.last()) {
            assert forall|i: int| 0 <= i < s.len() implies is_space(#[trigger] s[i]) by {
                if i < init.len() {
                    assert(init[i] == s[i]);
                }
            }
        }
    }
}

/// The tokens of a text, each as a string of its own.
pub fn split_whitespace(s: &str) -> (r: Vec<String>)
    ensures
        texts(r@) == whitespace_tokens(s@),
{
    let n = s.unicode_len();
    let mut out: Vec<String> = Vec::new();
    let mut start: usize = 0;
    let mut i: usize = 0;
    proof {
        assert(s@.take(0) =~= Seq::<char>::empty());
        assert(texts(out@) =~= token_scan(s@.take(0)).tokens);
        assert(s@.subrange(0, 0) =~= token_scan(s@.take(0)).current);
    }
    while i < n
        invariant
            0 <= start <= i <= n,
            n == s@.len(),
            texts(out@) == token_scan(s@.take(i as int)).tokens,
            token_scan(s@.take(i as int)).current == s@.subrange(start as int, i as int),
        decreases n - i,
    {
        let c = s.get_char(i);
        proof {
            assert(s@.take(i as int + 1).drop_last() =~= s@.take(i as int));
            assert(s@.take(i as int + 1).last() == c);
        }
        if is_whitespace(c) {
            if start < i {
                let token = s.substring_char(start, i).to_owned();
                proof {
                    assert(texts(out@.push(token)) =~= texts(out@).push(token@));
                }
                out.push(token);
            }
            start = i + 1;
            proof {
                assert(s@.subrange(i as int + 1, i as int + 1) =~= Seq::<char>::empty());
            }
        } else {
            proof {
                assert(s@.subrange(start as int, i as int + 1) =~= s@.subrange(
                    start as int,
                    i as int,
                ).push(c));
            }
        }
        i = i + 1;
    }
    proof {
        assert(s@.take(n as int) =~= s@);
    }
    if start < n {
        let token = s.substring_char(start, n).to_owned();
        proof {
            assert(texts(out@.push(token)) =~= texts(out@).push(token@));
        }
        out.push(token);
    }
    out
}

/// Where the first line of a text ends: at its first line feed, or at the
/// end of the text where it has none.
pub open spec fn line_end(s: Seq<char>) -> int
    decreases s.len(),
{
    if s.len() == 0 {
        0
    } else if s[0] == '\n' {
        0
    } else {
        1 + line_end(s.skip(1))
    }
}

/// The first line of a text, without its line feed.
pub open spec fn head_line(s: Seq<char>) -> Seq<char> {
    s.take(line_end(s))
}

/// The first line of a text.
pub fn first_line_of(s: &str) -> (r: &str)
    ensures
        r@ == head_line(s@),
{
    let n = s.unicode_len();
    let mut i: usize = 0;
    proof {
        assert(s@.skip(0) =~= s@);
    }
    while i < n && s.get_char(i) != '\n'
        invariant
            0 <= i <= n,
            n == s@.len(),
            line_end(s@) == i + line_end(s@.skip(i as int)),
        decreases n - i,
    {
        proof {
            assert(s@.skip(i as int)[0] == s@[i as int]);
            assert(s@.skip(i as int).skip(1) =~= s@.skip(i as int + 1));
        }
        i = i + 1;
    }
    proof {
        if i < n {
            assert(s@.skip(i as int)[0] == s@[i as int]);
        }
        assert(s@.subrange(0, i as int) =~= s@.take(i as int));
    }
    s.substring_char(0, i)
}

/// One decimal digit.
pub open spec fn digit_text(d: u64) -> Seq<char> {
    if d == 0 {
        "0"@
    } else if d == 1 {
        "1"@
    } else if d == 2 {
        "2"@
    } else if d == 3 {
        "3"@
    } else if d == 4 {
        "4"@
    } else if d == 5 {
        "5"@
    } else if d == 6 {
        "6"@
    } else if d == 7 {
        "7"@
    } else if d == 8 {
        "8"@
    } else {
        "9"@
    }
}

/// The decimal digits of a number, the first of them not a zero unless the
/// number is zero.
pub open spec fn decimal_text(n: u64) -> Seq<char>
    decreases n,
{
    if n < 10 {
        digit_text(n)
    } else {
        decimal_text(n / 10) + digit_text(n % 10)
    }
}

fn digit(d: u64) -> (r: &'static str)
    requires
        d < 10,
    ensures
        r@ == digit_text(d),
{
    if d == 0 {
        "0"
    } else if d == 1 {
        "1"
    } else if d == 2 {
        "2"
    } else if d == 3 {
        "3"
    } else if d == 4 {
        "4"
    } else if d == 5 {
        "5"
    } else if d == 6 {
        "6"
    } else if d == 7 {
        "7"
    } else if d == 8 {
        "8"
    } else {
        "9"
    }
}

/// The number in decimal digits.
pub fn decimal(n: u64) -> (r: String)
    ensures
        r@ == decimal_text(n),
    decreases n,
{
    if n < 10 {
        digit(n).to_owned()
    } else {
        let mut text = decimal(n / 10);
        text.append(digit(n % 10));
        text
    }
}

} // verus!
