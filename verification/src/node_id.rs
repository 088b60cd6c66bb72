use vstd::prelude::*;

verus! {

/// Whether `c` is one of the ten decimal digits.
pub open spec fn is_digit(c: char) -> bool {
    '0' <= c <= '9'
}

/// The number that the single digit `c` stands for.
pub open spec fn digit_value(c: char) -> nat {
    (c as u32 - '0' as u32) as nat
}

/// Whether every character of `text` is a decimal digit.
pub open spec fn all_digits(text: Seq<char>) -> bool {
    forall|i: int| 0 <= i < text.len() ==> is_digit(#[trigger] text[i])
}

/// The number written by a run of decimal digits, most significant first.
pub open spec fn decimal_value(digits: Seq<char>) -> nat
    decreases digits.len(),
{
    if digits.len() == 0 {
        0
    } else {
        decimal_value(digits.drop_last()) * 10 + digit_value(digits.last())
    }
}

/// The digits of an unsigned number's text: the text itself, without the one
/// plus sign that may lead it.
pub open spec fn unsigned_digits(text: Seq<char>) -> Seq<char> {
    if text.len() > 0 && text[0] == '+' {
        text.drop_first()
    } else {
        text
    }
}

/// The number that `text` writes, if it writes one: an optional plus sign
/// followed by at least one decimal digit and nothing else.
pub open spec fn unsigned_value(text: Seq<char>) -> Option<nat> {
    let digits = unsigned_digits(text);
    if digits.len() > 0 && all_digits(digits) {
        Some(decimal_value(digits))
    } else {
        None
    }
}

/// The index that a node identity carries: the unsigned number written by
/// everything after its first character (`"n3"` carries 3).
pub open spec fn node_index(id: Seq<char>) -> Option<nat> {
    if id.len() == 0 {
        None
    } else {
        unsigned_value(id.drop_first())
    }
}

/// The index of `id` as a machine word: `None` where the identity carries no
/// index or the index exceeds `usize::MAX`.
pub open spec fn word_index(id: Seq<char>) -> Option<usize> {
    match node_index(id) {
        Some(index) if index <= usize::MAX => Some(index as usize),
        _ => None,
    }
}

/// Reads the index out of a node identity, in one pass over its characters.
pub fn parse_node_index(id: &str) -> (index: Option<usize>)
    ensures
        index == word_index(id@),
{
    let ghost text = id@;
    let ghost first: int = if text.len() > 1 && text[1] == '+' {
        2
    } else {
        1
    };
    let ghost digits = unsigned_digits(text.drop_first());
    // 0 before the first character, 1 right after it, where a plus sign may
    // stand, 2 from then on.
    let mut stage: u8 = 0;
    let mut any = false;
    let mut exceeded = false;
    let mut value: usize = 0;
    assert(text.len() == 0 ==> word_index(text) is None);
    for c in it: id.chars()
        invariant
            it.seq() == text,
            text == id@,
            digits == unsigned_digits(text.drop_first()),
            it.index() == text.len() ==> word_index(text) == if !any || exceeded {
                None
            } else {
                Some(value)
            },
            first == if text.len() > 1 && text[1] == '+' {
                2int
            } else {
                1int
            },
            stage == if it.index() < 2 {
                it.index()
            } else {
                2
            },
            any == (it.index() > first),
            it.index() >= first ==> all_digits(text.subrange(first, it.index())),
            it.index() >= first && !exceeded ==> value == decimal_value(
                text.subrange(first, it.index()),
            ),
            it.index() >= first && exceeded ==> decimal_value(text.subrange(first, it.index()))
                > usize::MAX,
            it.index() < first ==> !exceeded && value == 0,
    {
        let ghost k = it.index();
        assert(c == text[k]);
        if stage == 0 {
            stage = 1;
            proof {
                assert(text.subrange(1, 1) =~= Seq::empty());
                assert(text.len() == 1 ==> text.drop_first() =~= Seq::empty());
            }
        } else if stage == 1 && c == '+' {
            stage = 2;
            proof {
                assert(text.subrange(2, 2) =~= Seq::empty());
                assert(text.drop_first()[0] == '+');
                assert(text.len() == 2 ==> digits =~= Seq::empty());
            }
        } else {
            stage = 2;
            proof {
                assert(first == 2 ==> text.drop_first()[0] == '+');
                assert(digits =~= text.subrange(first, text.len() as int));
                assert(digits[k - first] == c);
            }
            if !(c >= '0' && c <= '9') {
                assert(!is_digit(digits[k - first]));
                return None;
            }
            let d: usize = (c as u32 - '0' as u32) as usize;
            proof {
                let next = text.subrange(first, k + 1);
                assert(next.drop_last() =~= text.subrange(first, k));
                assert(next.last() == c);
            }
            if !exceeded {
                if value > (usize::MAX - d) / 10 {
                    exceeded = true;
                } else {
                    value = value * 10 + d;
                }
            }
            any = true;
            proof {
                assert(k + 1 == text.len() ==> text.subrange(first, k + 1) =~= digits);
            }
        }
    }
    if !any || exceeded {
        None
    } else {
        Some(value)
    }
}

} // verus!
