//! Parsing of inbound transfer directives.
//!
//! A transfer notification carries a message of the form `STAKE:<farm_id>`
//! or `ADD_REWARD:<farm_id>`. Anything else — no colon, an unknown action,
//! or a farm identifier that is not a decimal number fitting in `u64` — is
//! refused, which makes the engine return the transferred amount rather
//! than absorb it.

use vstd::prelude::*;

verus! {

/// What an inbound transfer asks the engine to do.
#[derive(Clone, Copy, Debug, PartialEq, Eq, Structural)]
pub enum Directive {
    /// Stake the transferred amount into the given farm.
    Stake(u64),
    /// Register the transferred amount as a reward top-up for the farm.
    AddReward(u64),
    /// The message is not a well-formed directive; refuse the transfer.
    Refused,
}

/// A decimal digit.
pub open spec fn is_digit(c: char) -> bool {
    '0' <= c && c <= '9'
}

pub open spec fn digit_val(c: char) -> int {
    c as int - '0' as int
}

/// The number denoted by a sequence of decimal digits, most significant
/// first.
pub open spec fn digits_val(s: Seq<char>) -> int
    decreases s.len(),
{
    if s.len() == 0 {
        0
    } else {
        10 * digits_val(s.drop_last()) + digit_val(s.last())
    }
}

pub open spec fn all_digits(s: Seq<char>) -> bool {
    forall|k: int| 0 <= k < s.len() ==> is_digit(s[k])
}

/// The `u64` a digit string denotes: present exactly when the string is a
/// non-empty run of decimal digits whose value fits.
pub open spec fn spec_parse_u64(s: Seq<char>) -> Option<u64> {
    if s.len() > 0 && all_digits(s) && digits_val(s) <= u64::MAX {
        Some(digits_val(s) as u64)
    } else {
        None
    }
}

/// Index of the first `':'` in `s`, or `s.len()` if there is none.
pub open spec fn first_colon(s: Seq<char>) -> int
    decreases s.len(),
{
    if s.len() == 0 {
        0
    } else if s[0] == ':' {
        0
    } else {
        1 + first_colon(s.skip(1))
    }
}

/// The action keyword for staking.
pub open spec fn is_stake_keyword(s: Seq<char>) -> bool {
    s.len() == 5 && s[0] == 'S' && s[1] == 'T' && s[2] == 'A' && s[3] == 'K' && s[4] == 'E'
}

/// The action keyword for reward top-ups.
pub open spec fn is_add_reward_keyword(s: Seq<char>) -> bool {
    &&& s.len() == 10
    &&& s[0] == 'A'
    &&& s[1] == 'D'
    &&& s[2] == 'D'
    &&& s[3] == '_'
    &&& s[4] == 'R'
    &&& s[5] == 'E'
    &&& s[6] == 'W'
    &&& s[7] == 'A'
    &&& s[8] == 'R'
    &&& s[9] == 'D'
}

/// The directive a message denotes. The action is the part before the first
/// colon; the farm identifier is the part between the first colon and the
/// second (or the end). A message without a colon, with an unknown action,
/// or with a malformed identifier is refused.
pub open spec fn spec_directive(s: Seq<char>) -> Directive {
    let i = first_colon(s);
    if i >= s.len() {
        Directive::Refused
    } else {
        let action = s.take(i);
        let rest = s.skip(i + 1);
        let id_part = rest.take(first_colon(rest));
        match spec_parse_u64(id_part) {
            None => Directive::Refused,
            Some(fid) => if is_stake_keyword(action) {
                Directive::Stake(fid)
            } else if is_add_reward_keyword(action) {
                Directive::AddReward(fid)
            } else {
                Directive::Refused
            },
        }
    }
}

proof fn lemma_first_colon_bounds(s: Seq<char>)
    ensures
        0 <= first_colon(s) <= s.len(),
        first_colon(s) < s.len() ==> s[first_colon(s)] == ':',
        forall|k: int| 0 <= k < first_colon(s) ==> s[k] != ':',
    decreases s.len(),
{
    if s.len() == 0 {
    } else if s[0] == ':' {
    } else {
        lemma_first_colon_bounds(s.skip(1));
        assert(forall|k: int| 0 <= k < first_colon(s.skip(1)) ==> s.skip(1)[k] != ':');
        assert forall|k: int| 0 <= k < first_colon(s) implies s[k] != ':' by {
            if k > 0 {
                assert(s.skip(1)[k - 1] == s[k]);
            }
        }
    }
}

proof fn lemma_first_colon_unique(s: Seq<char>, i: int)
    requires
        0 <= i <= s.len(),
        forall|k: int| 0 <= k < i ==> s[k] != ':',
        i < s.len() ==> s[i] == ':',
    ensures
        first_colon(s) == i,
    decreases s.len(),
{
    if i == 0 {
        if s.len() > 0 {
            assert(s[0] == ':');
        }
    } else {
        assert(s[0] != ':');
        assert forall|k: int| 0 <= k < i - 1 implies s.skip(1)[k] != ':' by {
            assert(s.skip(1)[k] == s[k + 1]);
        }
        assert(i - 1 < s.skip(1).len() ==> s.skip(1)[i - 1] == s[i]);
        lemma_first_colon_unique(s.skip(1), i - 1);
    }
}

proof fn lemma_digits_val_nonneg(s: Seq<char>)
    requires
        all_digits(s),
    ensures
        digits_val(s) >= 0,
    decreases s.len(),
{
    if s.len() > 0 {
        assert(all_digits(s.drop_last()));
        lemma_digits_val_nonneg(s.drop_last());
    }
}

/// Index of the first `':'` at or after `from`, or the character length of
/// `s` if there is none from there on.
fn find_colon(s: &str, from: usize, len: usize) -> (r: usize)
    requires
        from <= len,
        len == s@.len(),
    ensures
        r == from + first_colon(s@.skip(from as int)),
        from <= r <= len,
{
    let ghost t = s@.skip(from as int);
    let mut i: usize = from;
    while i < len
        invariant
            from <= i <= len,
            len == s@.len(),
            t == s@.skip(from as int),
            forall|k: int| from <= k < i ==> s@[k] != ':',
        decreases len - i,
    {
        if s.get_char(i) == ':' {
            proof {
                assert forall|k: int| 0 <= k < i - from implies t[k] != ':' by {
                    assert(t[k] == s@[k + from]);
                }
                assert(t[i - from] == s@[i as int]);
                lemma_first_colon_unique(t, i - from);
            }
            return i;
        }
        i += 1;
    }
    proof {
        assert forall|k: int| 0 <= k < i - from implies t[k] != ':' by {
            assert(t[k] == s@[k + from]);
        }
        lemma_first_colon_unique(t, i - from);
    }
    i
}

/// Parses the characters of `s` in `[from, to)` as a decimal `u64`.
fn parse_u64_range(s: &str, from: usize, to: usize, len: usize) -> (r: Option<u64>)
    requires
        from <= to <= len,
        len == s@.len(),
    ensures
        r == spec_parse_u64(s@.subrange(from as int, to as int)),
{
    let ghost t = s@.subrange(from as int, to as int);
    if from == to {
        return None;
    }
    let mut acc: u64 = 0;
    let mut i: usize = from;
    while i < to
        invariant
            from <= i <= to <= len,
            len == s@.len(),
            t == s@.subrange(from as int, to as int),
            t.len() == to - from,
            all_digits(t.take(i - from)),
            acc == digits_val(t.take(i - from)),
        decreases to - i,
    {
        let c = s.get_char(i);
        proof {
            assert(t[i - from] == s@[i as int]);
        }
        if c < '0' || c > '9' {
            proof {
                assert(!is_digit(t[i - from]));
                assert(!all_digits(t));
            }
            return None;
        }
        let d: u64 = (c as u32 - '0' as u32) as u64;
        proof {
            assert(t.take(i - from + 1).drop_last() =~= t.take(i - from));
            assert(t.take(i - from + 1).last() == t[i - from]);
        }
        let shifted = match acc.checked_mul(10) {
            Some(v) => v,
            None => {
                proof {
                    assert(digits_val(t.take(i - from + 1)) > u64::MAX);
                    lemma_digits_val_take_le_partial(t, i - from + 1);
                }
                return None;
            },
        };
        let next = match shifted.checked_add(d) {
            Some(v) => v,
            None => {
                proof {
                    assert(digits_val(t.take(i - from + 1)) > u64::MAX);
                    lemma_digits_val_take_le_partial(t, i - from + 1);
                }
                return None;
            },
        };
        acc = next;
        i += 1;
    }
    proof {
        assert(t.take(to - from) =~= t);
    }
    Some(acc)
}

/// If some prefix of a digit string already exceeds `u64::MAX`, so does any
/// extension of it by further digits; the whole string then has no `u64`
/// value.
proof fn lemma_digits_val_take_le_partial(t: Seq<char>, i: int)
    requires
        0 <= i <= t.len(),
        all_digits(t.take(i)),
        digits_val(t.take(i)) > u64::MAX,
    ensures
        spec_parse_u64(t) == Option::<u64>::None,
    decreases t.len() - i,
{
    if i == t.len() {
        assert(t.take(i) =~= t);
    } else {
        if all_digits(t) {
            assert(is_digit(t[i]));
            assert(t.take(i + 1).drop_last() =~= t.take(i));
            assert(t.take(i + 1).last() == t[i]);
            assert(digits_val(t.take(i + 1)) == 10 * digits_val(t.take(i)) + digit_val(t[i]));
            lemma_digits_val_take_le_partial(t, i + 1);
        }
    }
}

/// Decides what an inbound transfer message asks for.
pub fn parse_directive(msg: &str) -> (d: Directive)
    ensures
        d == spec_directive(msg@),
{
    let len = msg.unicode_len();
    let i = find_colon(msg, 0, len);
    proof {
        assert(msg@.skip(0) =~= msg@);
    }
    if i == len {
        return Directive::Refused;
    }

    let j = find_colon(msg, i + 1, len);
    let ghost rest = msg@.skip(i as int + 1);
    proof {
        lemma_first_colon_bounds(rest);
        assert(rest.take(first_colon(rest)) =~= msg@.subrange(
            i as int + 1,
            i + 1 + first_colon(rest),
        ));
    }
    let fid = match parse_u64_range(msg, i + 1, j, len) {
        Some(v) => v,
        None => {
            return Directive::Refused;
        },
    };

    let ghost action = msg@.take(i as int);
    proof {
        assert(forall|k: int| 0 <= k < i ==> action[k] == msg@[k]);
    }
    if i == 5 && msg.get_char(0) == 'S' && msg.get_char(1) == 'T' && msg.get_char(2) == 'A'
        && msg.get_char(3) == 'K' && msg.get_char(4) == 'E' {
        proof {
            assert(is_stake_keyword(action));
        }
        Directive::Stake(fid)
    } else if i == 10 && msg.get_char(0) == 'A' && msg.get_char(1) == 'D' && msg.get_char(2) == 'D'
        && msg.get_char(3) == '_' && msg.get_char(4) == 'R' && msg.get_char(5) == 'E'
        && msg.get_char(6) == 'W' && msg.get_char(7) == 'A' && msg.get_char(8) == 'R'
        && msg.get_char(9) == 'D' {
        proof {
            assert(is_add_reward_keyword(action));
        }
        Directive::AddReward(fid)
    } else {
        proof {
            assert(!is_stake_keyword(action));
            assert(!is_add_reward_keyword(action));
        }
        Directive::Refused
    }
}

} // verus!
