use vstd::prelude::*;

use std::hash::DefaultHasher;
use vstd::std_specs::hash::DefaultHasherAdditionalSpecFns;

use crate::text::push_char;

verus! {

/// The shape a provider name must have to stand in a namespaced tool name.
pub const NAME_PATTERN: &'static str = "^[a-zA-Z][a-zA-Z0-9_]*$";

pub open spec fn is_ascii_letter(c: char) -> bool {
    ('a' <= c && c <= 'z') || ('A' <= c && c <= 'Z')
}

pub open spec fn is_name_char(c: char) -> bool {
    is_ascii_letter(c) || ('0' <= c && c <= '9') || c == '_'
}

/// A name of the required shape: an ASCII letter, then ASCII letters, digits
/// or underscores.
pub open spec fn valid_name(s: Seq<char>) -> bool {
    &&& s.len() > 0
    &&& is_ascii_letter(s[0])
    &&& forall|i: int| 1 <= i < s.len() ==> is_name_char(#[trigger] s[i])
}

/// The state a hasher reaches when a string is hashed into it from `state`.
pub uninterp spec fn hash_fed(state: Seq<Seq<u8>>, s: Seq<char>) -> Seq<Seq<u8>>;

/// The text that convert_case gives for `s` in snake case.
pub uninterp spec fn snake_case_of(s: Seq<char>) -> Seq<char>;

/// Relies on regex::Regex::new and Regex::is_match, for the name pattern only:
/// it compiles, is anchored at both ends, and its classes are ASCII, so a
/// text matches exactly when it has the shape `valid_name` states.
#[verifier::external_body]
fn regex_is_match(pattern: &str, text: &str) -> (r: bool)
    requires
        pattern@ == NAME_PATTERN@,
    ensures
        r == valid_name(text@),
{
    match regex::Regex::new(pattern) {
        Ok(re) => re.is_match(text),
        Err(_) => false,
    }
}

/// Relies on convert_case's Casing::to_case with Case::Snake.
#[verifier::external_body]
pub(crate) fn to_snake_case(s: &str) -> (r: String)
    ensures
        r@ == snake_case_of(s@),
{
    convert_case::Casing::to_case(&s, convert_case::Case::Snake)
}

/// Relies on Hash::hash for String: what it feeds into the hasher depends on
/// the hasher's state and the text alone.
#[verifier::external_body]
fn feed_hasher(s: &String, hasher: &mut std::hash::DefaultHasher)
    ensures
        final(hasher)@ == hash_fed(old(hasher)@, s@),
{
    std::hash::Hash::hash(s, hasher)
}

pub open spec fn digit_char(d: nat) -> char
    recommends
        d < 10,
{
    if d == 0 { '0' }
    else if d == 1 { '1' }
    else if d == 2 { '2' }
    else if d == 3 { '3' }
    else if d == 4 { '4' }
    else if d == 5 { '5' }
    else if d == 6 { '6' }
    else if d == 7 { '7' }
    else if d == 8 { '8' }
    else { '9' }
}

/// The decimal digits of `n`, most significant first, without leading zeros.
pub open spec fn decimal_digits(n: nat) -> Seq<char>
    decreases n,
{
    if n < 10 {
        seq![digit_char(n)]
    } else {
        decimal_digits(n / 10).push(digit_char(n % 10))
    }
}

pub open spec fn is_digit_text(s: Seq<char>) -> bool {
    s.len() > 0 && forall|i: int| 0 <= i < s.len() ==> '0' <= #[trigger] s[i] <= '9'
}

pub proof fn lemma_decimal_digits_are_digits(n: nat)
    ensures
        is_digit_text(decimal_digits(n)),
    decreases n,
{
    if n >= 10 {
        lemma_decimal_digits_are_digits(n / 10);
        let s = decimal_digits(n / 10);
        assert forall|i: int| 0 <= i < s.len() + 1 implies '0' <= #[trigger] decimal_digits(n)[i] <= '9' by {
            if i < s.len() {
                assert(decimal_digits(n)[i] == s[i]);
            }
        }
    }
}

fn digit_of(d: u64) -> (r: char)
    requires
        d < 10,
    ensures
        r == digit_char(d as nat),
{
    if d == 0 { '0' }
    else if d == 1 { '1' }
    else if d == 2 { '2' }
    else if d == 3 { '3' }
    else if d == 4 { '4' }
    else if d == 5 { '5' }
    else if d == 6 { '6' }
    else if d == 7 { '7' }
    else if d == 8 { '8' }
    else { '9' }
}

/// The decimal form of `n`.
pub fn decimal_text(n: u64) -> (r: String)
    ensures
        r@ == decimal_digits(n as nat),
    decreases n,
{
    if n < 10 {
        let mut s = String::new();
        push_char(&mut s, digit_of(n));
        assert(s@ =~= seq![digit_char(n as nat)]);
        s
    } else {
        let mut s = decimal_text(n / 10);
        push_char(&mut s, digit_of(n % 10));
        s
    }
}

/// Whether a single character may stand in a provider name.
pub open spec fn char_allowed(c: char) -> bool {
    valid_name(seq![c])
}

/// The characters of `s` that may each stand in a provider name, in order.
pub open spec fn kept_chars(s: Seq<char>) -> Seq<char>
    decreases s.len(),
{
    if s.len() == 0 {
        Seq::empty()
    } else if char_allowed(s.last()) {
        kept_chars(s.drop_last()).push(s.last())
    } else {
        kept_chars(s.drop_last())
    }
}

/// What sanitizing `orig` gives from the hasher state `state`, and the state
/// it leaves: the name itself where it already has the required shape, else
/// its allowed characters, with the hasher untouched; else (none being
/// allowed) the name is hashed in and the hasher's value written in decimal.
pub open spec fn sanitize_outcome(orig: Seq<char>, state: Seq<Seq<u8>>) -> (Seq<char>, Seq<Seq<u8>>) {
    if valid_name(orig) {
        (orig, state)
    } else if kept_chars(orig).len() > 0 {
        (kept_chars(orig), state)
    } else {
        let fed = hash_fed(state, orig);
        (decimal_digits(DefaultHasher::spec_finish(fed) as nat), fed)
    }
}

/// `r` is what sanitizing `orig` gives from some hasher state.
pub open spec fn sanitized(orig: Seq<char>, r: Seq<char>) -> bool {
    exists|state: Seq<Seq<u8>>| #[trigger] sanitize_outcome(orig, state).0 == r
}

/// Rewrites a provider name so that it can stand in a namespaced tool name.
/// Where no character survives, the name is fed into `hasher`, which is shared
/// across the names of one run, and the hasher's value is written in decimal.
pub fn sanitize_server_name(orig: String, hasher: &mut std::hash::DefaultHasher) -> (r: String)
    ensures
        (r@, final(hasher)@) == sanitize_outcome(orig@, old(hasher)@),
{
    if regex_is_match(NAME_PATTERN, orig.as_str()) {
        return orig;
    }
    let n = orig.as_str().unicode_len();
    let mut kept = String::new();
    let mut i: usize = 0;
    while i < n
        invariant
            n == orig@.len(),
            i <= n,
            kept@ == kept_chars(orig@.subrange(0, i as int)),
        decreases n - i,
    {
        let one = orig.as_str().substring_char(i, i + 1);
        assert(one@ =~= seq![orig@[i as int]]);
        let ghost prefix = orig@.subrange(0, i + 1);
        assert(prefix.drop_last() =~= orig@.subrange(0, i as int));
        assert(prefix.last() == orig@[i as int]);
        assert(char_allowed(orig@[i as int]) == is_ascii_letter(orig@[i as int]));
        if regex_is_match(NAME_PATTERN, one) {
            push_char(&mut kept, orig.as_str().get_char(i));
        }
        i = i + 1;
    }
    assert(orig@.subrange(0, n as int) =~= orig@);
    if kept.as_str().unicode_len() == 0 {
        feed_hasher(&orig, hasher);
        let h = std::hash::Hasher::finish(&*hasher);
        decimal_text(h)
    } else {
        kept
    }
}

/// A name that already has the required shape is left as it is, and so is
/// the hasher.
pub proof fn lemma_valid_name_unchanged(name: Seq<char>, state: Seq<Seq<u8>>)
    requires
        valid_name(name),
    ensures
        sanitize_outcome(name, state) == (name, state),
{
}

proof fn lemma_no_kept_char_no_letter(s: Seq<char>)
    requires
        kept_chars(s).len() == 0,
    ensures
        forall|i: int| 0 <= i < s.len() ==> !is_ascii_letter(#[trigger] s[i]),
    decreases s.len(),
{
    if s.len() > 0 {
        assert(char_allowed(s.last()) == is_ascii_letter(s.last()));
        lemma_no_kept_char_no_letter(s.drop_last());
        assert forall|i: int| 0 <= i < s.len() implies !is_ascii_letter(#[trigger] s[i]) by {
            if i < s.len() - 1 {
                assert(s.drop_last()[i] == s[i]);
            }
        }
    }
}

proof fn lemma_kept_chars_len(s: Seq<char>)
    ensures
        kept_chars(s).len() <= s.len(),
    decreases s.len(),
{
    if s.len() > 0 {
        lemma_kept_chars_len(s.drop_last());
    }
}

/// A name with no character allowed in a name becomes a non-empty run of
/// decimal digits, and sanitizing never gives the empty name.
pub proof fn lemma_sanitized_never_empty(name: Seq<char>, state: Seq<Seq<u8>>)
    ensures
        sanitize_outcome(name, state).0.len() > 0,
        kept_chars(name).len() == 0 ==> is_digit_text(sanitize_outcome(name, state).0),
{
    if kept_chars(name).len() == 0 {
        lemma_no_kept_char_no_letter(name);
        assert(!valid_name(name)) by {
            if name.len() > 0 {
                assert(!is_ascii_letter(name[0]));
            }
        }
        lemma_decimal_digits_are_digits(DefaultHasher::spec_finish(hash_fed(state, name)) as nat);
    }
}

} // verus!
