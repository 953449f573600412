//! Identifiers that no two requests share.
//!
//! An identifier names the node that issued it and the value of that node's
//! counter at the time, followed by a random token. The first two parts alone
//! tell apart any two identifiers issued while the nodes are up; the token
//! keeps identifiers apart across restarts, when counters start over.

use vstd::prelude::*;
use vstd::string::*;

verus! {

/// The character between the parts of an identifier.
pub open spec fn separator() -> char {
    '-'
}

/// Number of characters in a token.
pub open spec fn token_len() -> nat {
    26
}

/// The characters that tokens are written in: the digits and the capital
/// letters without `I`, `L`, `O` and `U`.
pub open spec fn is_token_char(c: char) -> bool {
    ('0' <= c && c <= '9') || ('A' <= c && c <= 'Z' && c != 'I' && c != 'L' && c != 'O' && c
        != 'U')
}

/// Whether `text` has the shape of a token.
pub open spec fn is_token(text: Seq<char>) -> bool {
    &&& text.len() == token_len()
    &&& forall|i: int| 0 <= i < text.len() ==> is_token_char(#[trigger] text[i])
}

/// A fresh random token.
///
/// Calls `ulid::Ulid::new` and writes the result out with `Ulid::to_string`.
/// The value depends on the clock and on the thread's random generator, so
/// nothing is claimed of it beyond its shape, which is not proved here: the
/// text form of a ULID is always 26 characters of Crockford's base 32
/// alphabet. The call fails only where the operating system cannot seed the
/// random generator.
#[verifier::external_body]
pub(crate) fn fresh_token() -> (token: String)
    ensures
        is_token(token@),
{
    ulid::Ulid::new().to_string()
}

/// The decimal digit for a number below ten.
pub open spec fn digit(d: nat) -> char {
    if d == 0 {
        '0'
    } else if d == 1 {
        '1'
    } else if d == 2 {
        '2'
    } else if d == 3 {
        '3'
    } else if d == 4 {
        '4'
    } else if d == 5 {
        '5'
    } else if d == 6 {
        '6'
    } else if d == 7 {
        '7'
    } else if d == 8 {
        '8'
    } else {
        '9'
    }
}

/// A number written in decimal, without leading zeros.
pub open spec fn decimal(n: nat) -> Seq<char>
    decreases n,
{
    if n < 10 {
        seq![digit(n)]
    } else {
        decimal(n / 10).push(digit(n % 10))
    }
}

/// The identifier that node `node_id` issues at counter value `counter` with
/// the random token `token`.
pub open spec fn guid_of(node_id: Seq<char>, counter: nat, token: Seq<char>) -> Seq<char> {
    node_id + seq![separator()] + decimal(counter) + seq![separator()] + token
}

/// A decimal numeral is never empty and holds digits only.
pub proof fn lemma_decimal_digits(n: nat)
    ensures
        decimal(n).len() >= 1,
        forall|i: int| 0 <= i < decimal(n).len() ==> '0' <= #[trigger] decimal(n)[i] <= '9',
    decreases n,
{
    if n >= 10 {
        lemma_decimal_digits(n / 10);
    }
}

/// Different numbers have different numerals.
pub proof fn lemma_decimal_injective(a: nat, b: nat)
    requires
        decimal(a) == decimal(b),
    ensures
        a == b,
    decreases a,
{
    lemma_decimal_digits(a / 10);
    lemma_decimal_digits(b / 10);
    assert(decimal(a).last() == digit(a % 10));
    assert(decimal(b).last() == digit(b % 10));
    if a >= 10 && b >= 10 {
        assert(decimal(a).drop_last() =~= decimal(a / 10));
        assert(decimal(b).drop_last() =~= decimal(b / 10));
        lemma_decimal_injective(a / 10, b / 10);
    }
}

/// An identifier determines the node, the counter value and the token it was
/// made from, provided the tokens have the same length.
pub proof fn lemma_guid_injective(
    node_a: Seq<char>,
    counter_a: nat,
    token_a: Seq<char>,
    node_b: Seq<char>,
    counter_b: nat,
    token_b: Seq<char>,
)
    requires
        token_a.len() == token_b.len(),
        guid_of(node_a, counter_a, token_a) == guid_of(node_b, counter_b, token_b),
    ensures
        node_a == node_b,
        counter_a == counter_b,
        token_a == token_b,
{
    let text = guid_of(node_a, counter_a, token_a);
    let digits_a = decimal(counter_a);
    let digits_b = decimal(counter_b);
    let head_a = node_a + seq![separator()] + digits_a;
    let head_b = node_b + seq![separator()] + digits_b;
    lemma_decimal_digits(counter_a);
    lemma_decimal_digits(counter_b);
    assert(text == head_a + seq![separator()] + token_a);
    assert(text == head_b + seq![separator()] + token_b);
    assert(head_a.len() == head_b.len());
    assert(token_a =~= text.subrange(head_a.len() as int + 1, text.len() as int));
    assert(token_b =~= text.subrange(head_b.len() as int + 1, text.len() as int));
    assert(head_a =~= text.subrange(0, head_a.len() as int));
    assert(head_b =~= text.subrange(0, head_b.len() as int));
    // The last separator of the head sits right before the digits.
    if digits_a.len() < digits_b.len() {
        let at = head_a.len() - 1 - digits_a.len();
        assert(head_a[at] == separator());
        assert(head_b[at] == digits_b[at - node_b.len() - 1]);
    }
    if digits_b.len() < digits_a.len() {
        let at = head_b.len() - 1 - digits_b.len();
        assert(head_b[at] == separator());
        assert(head_a[at] == digits_a[at - node_a.len() - 1]);
    }
    assert(digits_a =~= head_a.subrange(node_a.len() as int + 1, head_a.len() as int));
    assert(digits_b =~= head_b.subrange(node_b.len() as int + 1, head_b.len() as int));
    assert(node_a =~= head_a.subrange(0, node_a.len() as int));
    assert(node_b =~= head_b.subrange(0, node_b.len() as int));
    lemma_decimal_injective(counter_a, counter_b);
}

/// The text of one decimal digit.
fn digit_text(d: usize) -> (text: &'static str)
    requires
        d < 10,
    ensures
        text@ == seq![digit(d as nat)],
{
    proof {
        reveal_strlit("0");
        reveal_strlit("1");
        reveal_strlit("2");
        reveal_strlit("3");
        reveal_strlit("4");
        reveal_strlit("5");
        reveal_strlit("6");
        reveal_strlit("7");
        reveal_strlit("8");
        reveal_strlit("9");
    }
    let text = if d == 0 {
        "0"
    } else if d == 1 {
        "1"
    } else if d == 2 {
        "2"
    } else if d == 3 {
        "3"
    } else if d == 4 {
        "4"
    } else if d == 5 {
        "5"
    } else if d == 6 {
        "6"
    } else if d == 7 {
        "7"
    } else if d == 8 {
        "8"
    } else {
        "9"
    };
    assert(text@ =~= seq![digit(d as nat)]);
    text
}

/// Writes `n` in decimal, without leading zeros.
pub fn decimal_string(n: usize) -> (text: String)
    ensures
        text@ == decimal(n as nat),
    decreases n,
{
    if n < 10 {
        String::from_str(digit_text(n))
    } else {
        let mut text = decimal_string(n / 10);
        text.append(digit_text(n % 10));
        text
    }
}

/// Builds the identifier that node `node_id` issues at counter value
/// `counter` with the random token `token`.
pub fn make_guid(node_id: &String, counter: usize, token: &String) -> (guid: String)
    ensures
        guid@ == guid_of(node_id@, counter as nat, token@),
{
    proof {
        reveal_strlit("-");
    }
    let mut guid = node_id.clone();
    guid.append("-");
    let digits = decimal_string(counter);
    guid.append(digits.as_str());
    guid.append("-");
    guid.append(token.as_str());
    assert("-"@ =~= seq![separator()]);
    guid
}

} // verus!
