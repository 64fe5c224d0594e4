use vstd::prelude::*;

verus! {

/// The text is not a number that the option accepts.
#[derive(Clone, Copy, Debug, PartialEq, Eq, Structural)]
pub enum ArgError {
    /// Neither the keyword nor a decimal number that fits.
    NotANumber,
    /// A thread count of zero.
    ZeroThreads,
}

pub open spec fn is_digit(c: char) -> bool {
    '0' <= c && c <= '9'
}

pub open spec fn all_digits(s: Seq<char>) -> bool {
    forall|i: int| 0 <= i < s.len() ==> is_digit(#[trigger] s[i])
}

/// Value of a string of decimal digits, most significant first.
pub open spec fn decimal_value(s: Seq<char>) -> nat
    decreases s.len(),
{
    if s.len() == 0 {
        0
    } else {
        decimal_value(s.drop_last()) * 10 + (s.last() as nat - '0' as nat) as nat
    }
}

/// The digits of `s`: all of it but one leading `+`, if there is one.
pub open spec fn digits_of(s: Seq<char>) -> Seq<char> {
    if s.len() > 0 && s[0] == '+' {
        s.subrange(1, s.len() as int)
    } else {
        s
    }
}

/// Value of `s` read as a number: its digits' decimal value.
pub open spec fn number_value(s: Seq<char>) -> nat {
    decimal_value(digits_of(s))
}

/// `s` is an optional `+` followed by a non-empty run of decimal digits
/// whose value fits in a `u64`.
pub open spec fn is_u64_number(s: Seq<char>) -> bool {
    let d = digits_of(s);
    d.len() > 0 && all_digits(d) && decimal_value(d) <= u64::MAX
}

/// Reads an optional `+` followed by a non-empty run of decimal digits;
/// `None` when a character is not a digit, there are no digits or the value
/// does not fit in a `u64`.
pub fn parse_decimal(input: &str) -> (r: Option<u64>)
    ensures
        is_u64_number(input@) <==> r is Some,
        r is Some ==> r->0 == number_value(input@),
{
    let n = input.unicode_len();
    let off: usize = if n > 0 && input.get_char(0) == '+' { 1 } else { 0 };
    let ghost d = digits_of(input@);
    proof {
        if off == 0 {
            assert(d =~= input@.subrange(0, n as int));
        } else {
            assert(input@[0] == '+');
            assert(d =~= input@.subrange(1, n as int));
        }
    }
    if n == off {
        return None;
    }
    let mut acc: u64 = 0;
    let mut i: usize = off;
    while i < n
        invariant
            n == input@.len(),
            off <= i <= n,
            d == input@.subrange(off as int, n as int),
            d == digits_of(input@),
            all_digits(d.take(i - off)),
            acc == decimal_value(d.take(i - off)),
        decreases n - i,
    {
        let c = input.get_char(i);
        proof {
            assert(d.take(i - off + 1).drop_last() =~= d.take(i - off));
            assert(d[i - off] == input@[i as int]);
        }
        if !('0' <= c && c <= '9') {
            proof {
                assert(!is_digit(d[i - off]));
            }
            return None;
        }
        let dg = (c as u32 - '0' as u32) as u64;
        let next = match acc.checked_mul(10) {
            Some(m) => m.checked_add(dg),
            None => None,
        };
        match next {
            Some(v) => {
                acc = v;
            },
            None => {
                proof {
                    lemma_prefix_bound(d, i - off + 1);
                }
                return None;
            },
        }
        i = i + 1;
    }
    proof {
        assert(d.take(n - off) =~= d);
    }
    Some(acc)
}

proof fn lemma_prefix_bound(s: Seq<char>, k: int)
    requires
        0 < k <= s.len(),
        all_digits(s.take(k)),
        decimal_value(s.take(k)) > u64::MAX,
    ensures
        !(all_digits(s) && decimal_value(s) <= u64::MAX),
    decreases s.len() - k,
{
    if all_digits(s) && k < s.len() {
        assert(s.take(k + 1).drop_last() =~= s.take(k));
        assert(all_digits(s.take(k + 1)));
        lemma_prefix_bound(s, k + 1);
    } else if k == s.len() {
        assert(s.take(k) =~= s);
    }
}

/// Reads an option that is either `inf` (no limit, `None`) or a decimal
/// number. Any other text is a usage error, to fail on before the call.
pub fn match_infinity(input: &str) -> (r: Option<u64>)
    requires
        input@ =~= seq!['i', 'n', 'f'] || is_u64_number(input@),
    ensures
        input@ =~= seq!['i', 'n', 'f'] ==> r is None,
        !(input@ =~= seq!['i', 'n', 'f']) ==> r == Some(number_value(input@) as u64),
{
    if is_keyword(input, 'i', 'n', 'f', None) {
        return None;
    }
    match parse_decimal(input) {
        Some(v) => Some(v),
        None => None,
    }
}

/// Reads the thread count option: `auto` (`None`, one per core) or a
/// positive decimal number.
pub fn thread_count(input: &str) -> (r: Result<Option<usize>, ArgError>)
    ensures
        input@ =~= seq!['a', 'u', 't', 'o'] ==> r == Ok::<Option<usize>, ArgError>(None),
        !(input@ =~= seq!['a', 'u', 't', 'o']) && is_u64_number(input@) && number_value(input@)
            == 0 ==> r == Err::<Option<usize>, ArgError>(ArgError::ZeroThreads),
        !(input@ =~= seq!['a', 'u', 't', 'o']) && is_u64_number(input@) && 0 < number_value(
            input@,
        ) <= usize::MAX ==> r == Ok::<Option<usize>, ArgError>(
            Some(number_value(input@) as usize),
        ),
        !(input@ =~= seq!['a', 'u', 't', 'o']) && !(is_u64_number(input@) && number_value(input@)
            <= usize::MAX) ==> r == Err::<Option<usize>, ArgError>(ArgError::NotANumber),
{
    if is_keyword(input, 'a', 'u', 't', Some('o')) {
        return Ok(None);
    }
    match parse_decimal(input) {
        Some(v) => {
            if v == 0 {
                Err(ArgError::ZeroThreads)
            } else if v > usize::MAX as u64 {
                Err(ArgError::NotANumber)
            } else {
                Ok(Some(v as usize))
            }
        },
        None => Err(ArgError::NotANumber),
    }
}

/// Whether `input` is the three characters `a b c`, followed by `d` when
/// `d` is given.
fn is_keyword(input: &str, a: char, b: char, c: char, d: Option<char>) -> (r: bool)
    ensures
        d is None ==> (r <==> input@ =~= seq![a, b, c]),
        d is Some ==> (r <==> input@ =~= seq![a, b, c, d->0]),
{
    let n = input.unicode_len();
    let want: usize = match d {
        Some(_) => 4,
        None => 3,
    };
    if n != want {
        proof {
            assert(input@.len() != seq![a, b, c].len() || d is Some);
        }
        return false;
    }
    let ok = input.get_char(0) == a && input.get_char(1) == b && input.get_char(2) == c
        && match d {
        Some(e) => input.get_char(3) == e,
        None => true,
    };
    proof {
        if ok {
            match d {
                Some(e) => {
                    assert(input@ =~= seq![a, b, c, e]);
                },
                None => {
                    assert(input@ =~= seq![a, b, c]);
                },
            }
        }
    }
    ok
}

} // verus!
