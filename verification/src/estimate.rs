//! How large a model is, read from its name.

use vstd::prelude::*;
use vstd::utf8::is_ascii_chars;

use crate::models::{decimal, is_digit};
use crate::outside::{ascii_lower, lower_text, lowercase};
use crate::text::{chars_of, piece};

verus! {

/// A digit with a `b` behind it stands at `i`.
pub open spec fn size_at(s: Seq<char>, i: int) -> bool {
    0 <= i && i + 1 < s.len() && is_digit(s[i]) && s[i + 1] == 'b'
}

/// The leftmost digit with a `b` behind it stands at `i`.
pub open spec fn first_size_at(s: Seq<char>, i: int) -> bool {
    size_at(s, i) && forall|j: int| 0 <= j < i ==> !size_at(s, j)
}

/// The digits at the end of `s`.
pub open spec fn digit_suffix(s: Seq<char>) -> Seq<char>
    decreases s.len(),
{
    if s.len() > 0 && is_digit(s.last()) {
        digit_suffix(s.drop_last()).push(s.last())
    } else {
        Seq::empty()
    }
}

/// The parameter count in billions, in decimal, that the lower-case name of a model shows: the
/// number before the first `b` that follows a digit. It is 7 where there is none or where that
/// number is zero.
pub open spec fn parameter_text(name: Seq<char>) -> Seq<char> {
    if exists|i: int| first_size_at(name, i) {
        let i = choose|i: int| first_size_at(name, i);
        let digits = digit_suffix(name.take(i + 1));
        if decimal(digits) > 0 {
            digits
        } else {
            "7"@
        }
    } else {
        "7"@
    }
}

proof fn lemma_first_size_unique(s: Seq<char>, i: int)
    requires
        first_size_at(s, i),
    ensures
        i == choose|j: int| first_size_at(s, j),
{
    let found = choose|j: int| first_size_at(s, j);
    assert(first_size_at(s, found));
    if found < i {
        assert(!size_at(s, found));
    } else if i < found {
        assert(!size_at(s, i));
    }
}

proof fn lemma_zero_decimal(digits: Seq<char>)
    requires
        forall|i: int| 0 <= i < digits.len() ==> is_digit(#[trigger] digits[i]),
    ensures
        decimal(digits) == 0 <==> forall|i: int| 0 <= i < digits.len() ==> #[trigger] digits[i]
            == '0',
    decreases digits.len(),
{
    if digits.len() > 0 {
        let front = digits.drop_last();
        lemma_zero_decimal(front);
        if decimal(digits) == 0 {
            assert forall|i: int| 0 <= i < digits.len() implies #[trigger] digits[i] == '0' by {
                if i < front.len() {
                    assert(front[i] == digits[i]);
                }
            }
        } else if decimal(front) > 0 {
            let i = choose|i: int| 0 <= i < front.len() && front[i] != '0';
            assert(digits[i] != '0');
        } else {
            assert(digits[digits.len() - 1] != '0');
        }
    }
}

/// The parameter count in billions that a lower-case model name shows, in decimal.
pub fn parameter_digits(name: &str) -> (r: String)
    ensures
        r@ == parameter_text(name@),
{
    let chars = chars_of(name);
    let total: usize = chars.len();
    let mut i: usize = 0;
    while i < total && total - i > 1
        invariant
            chars@ == name@,
            total == chars@.len(),
            i <= total,
            forall|j: int| 0 <= j < i ==> !size_at(name@, j),
        decreases total - i,
    {
        if '0' <= chars[i] && chars[i] <= '9' && chars[i + 1] == 'b' {
            assert(first_size_at(name@, i as int));
            proof {
                lemma_first_size_unique(name@, i as int);
            }
            let ghost digits = digit_suffix(name@.take(i + 1));
            let mut start: usize = i + 1;
            let mut some: bool = false;
            assert(name@.subrange(i + 1, i + 1) == Seq::<char>::empty());
            assert(digits == digit_suffix(name@.take(i + 1)) + name@.subrange(i + 1, i + 1));
            while start > 0 && '0' <= chars[start - 1] && chars[start - 1] <= '9'
                invariant
                    chars@ == name@,
                    total == chars@.len(),
                    start <= i + 1 <= total,
                    digits == digit_suffix(name@.take(start as int)) + name@.subrange(
                        start as int,
                        i + 1,
                    ),
                    forall|j: int| start <= j < i + 1 ==> is_digit(#[trigger] name@[j]),
                    some <==> exists|j: int| start <= j < i + 1 && #[trigger] name@[j] != '0',
                decreases start,
            {
                let ghost front = name@.take(start as int);
                assert(front.drop_last() == name@.take(start - 1));
                assert(name@.subrange(start - 1, i + 1) == seq![name@[start - 1]] + name@.subrange(
                    start as int,
                    i + 1,
                ));
                assert(digits == digit_suffix(name@.take(start - 1)) + name@.subrange(
                    start - 1,
                    i + 1,
                ));
                if chars[start - 1] != '0' {
                    some = true;
                    assert(name@[start - 1] != '0');
                }
                start = start - 1;
            }
            let r = piece(name, start, i + 1);
            assert(digit_suffix(name@.take(start as int)) == Seq::<char>::empty());
            assert(r@ == digits);
            proof {
                assert forall|j: int| 0 <= j < digits.len() implies is_digit(
                    #[trigger] digits[j],
                ) by {
                    assert(digits[j] == name@[start + j]);
                }
                lemma_zero_decimal(digits);
                if some {
                    let j = choose|j: int| start <= j < i + 1 && #[trigger] name@[j] != '0';
                    assert(digits[j - start] != '0');
                } else {
                    assert forall|j: int| 0 <= j < digits.len() implies #[trigger] digits[j]
                        == '0' by {
                        assert(digits[j] == name@[start + j]);
                    }
                }
            }
            if some {
                return r;
            }
            return "7".to_owned();
        }
        i = i + 1;
    }
    assert forall|j: int| !first_size_at(name@, j) by {
        assert(!size_at(name@, j));
    }
    "7".to_owned()
}

/// The parameter count in billions that a model name shows, in decimal. Capital letters count
/// as small ones.
pub fn parameter_count(model_name: &str) -> (r: String)
    ensures
        r@ == parameter_text(lower_text(model_name@)),
        is_ascii_chars(model_name@) ==> r@ == parameter_text(
            model_name@.map_values(|c: char| ascii_lower(c)),
        ),
{
    parameter_digits(lowercase(model_name).as_str())
}

proof fn lemma_digit_suffix(s: Seq<char>)
    ensures
        forall|i: int| 0 <= i < digit_suffix(s).len() ==> is_digit(#[trigger] digit_suffix(s)[i]),
    decreases s.len(),
{
    if s.len() > 0 && is_digit(s.last()) {
        let front = digit_suffix(s.drop_last());
        lemma_digit_suffix(s.drop_last());
        assert forall|i: int| 0 <= i < digit_suffix(s).len() implies is_digit(
            #[trigger] digit_suffix(s)[i],
        ) by {
            if i < front.len() {
                assert(digit_suffix(s)[i] == front[i]);
            }
        }
    }
}

proof fn lemma_digit_suffix_is(head: Seq<char>, digits: Seq<char>)
    requires
        head.len() == 0 || !is_digit(head.last()),
        forall|i: int| 0 <= i < digits.len() ==> is_digit(#[trigger] digits[i]),
    ensures
        digit_suffix(head + digits) == digits,
    decreases digits.len(),
{
    if digits.len() == 0 {
        assert(head + digits == head);
    } else {
        assert((head + digits).drop_last() == head + digits.drop_last());
        lemma_digit_suffix_is(head, digits.drop_last());
    }
}

/// The count that a name shows is written in digits and is never zero, so a rate can be divided
/// by it.
pub proof fn law_parameter_count_is_positive(name: Seq<char>)
    ensures
        forall|i: int|
            0 <= i < parameter_text(name).len() ==> is_digit(#[trigger] parameter_text(name)[i]),
        decimal(parameter_text(name)) > 0,
{
    reveal_strlit("7");
    let seven = "7"@;
    assert(seven == seq!['7']);
    assert(decimal(seven.drop_last()) == 0);
    assert(decimal(seven) == 7);
    if exists|i: int| first_size_at(name, i) {
        let i = choose|i: int| first_size_at(name, i);
        lemma_digit_suffix(name.take(i + 1));
    }
}

/// A name that writes a number and then `b` shows that number, where no digit stands before `b`
/// sooner.
pub proof fn law_parameter_count_is_read(head: Seq<char>, digits: Seq<char>, tail: Seq<char>)
    requires
        forall|i: int| !size_at(head, i),
        head.len() == 0 || !is_digit(head.last()),
        forall|i: int| 0 <= i < digits.len() ==> is_digit(#[trigger] digits[i]),
        decimal(digits) > 0,
    ensures
        parameter_text(head + digits + seq!['b'] + tail) == digits,
{
    let name = head + digits + seq!['b'] + tail;
    let i = head.len() + digits.len() - 1;
    assert(digits.len() > 0);
    assert(name[i] == digits[digits.len() - 1]);
    assert forall|j: int| 0 <= j < i implies !size_at(name, j) by {
        if j + 1 < head.len() {
            assert(!size_at(head, j));
        } else if j >= head.len() {
            assert(name[j + 1] == digits[j + 1 - head.len()]);
        } else {
            assert(name[j] == head.last());
        }
    }
    assert(first_size_at(name, i));
    lemma_first_size_unique(name, i);
    assert(name.take(i + 1) == head + digits);
    lemma_digit_suffix_is(head, digits);
}

/// A name in which no digit has a `b` behind it counts as seven billion parameters.
pub proof fn law_size_that_is_not_shown_is_seven(name: Seq<char>)
    requires
        forall|i: int|
            0 <= i < name.len() - 1 && 48 <= (#[trigger] name[i]) as int <= 57 ==> name[i + 1]
                != 'b',
    ensures
        parameter_text(name) == seq!['7'],
{
    reveal_strlit("7");
    assert("7"@ =~= seq!['7']);
    assert forall|i: int| !first_size_at(name, i) by {
        if size_at(name, i) {
            assert(name[i] as int == name[i] as int);
        }
    }
}

/// The first number with a `b` behind it is the size: as it is written where a digit of it is not
/// zero, and seven where all are.
pub proof fn law_first_number_before_a_b_is_the_size(
    head: Seq<char>,
    digits: Seq<char>,
    tail: Seq<char>,
)
    requires
        forall|i: int|
            0 <= i < head.len() - 1 && 48 <= (#[trigger] head[i]) as int <= 57 ==> head[i + 1]
                != 'b',
        head.len() > 0 ==> !(48 <= head.last() as int <= 57),
        digits.len() > 0,
        forall|i: int| 0 <= i < digits.len() ==> 48 <= (#[trigger] digits[i]) as int <= 57,
    ensures
        (exists|i: int| 0 <= i < digits.len() && #[trigger] digits[i] != '0') ==> parameter_text(
            head + digits + seq!['b'] + tail,
        ) == digits,
        (forall|i: int| 0 <= i < digits.len() ==> #[trigger] digits[i] == '0') ==> parameter_text(
            head + digits + seq!['b'] + tail,
        ) == seq!['7'],
{
    reveal_strlit("7");
    assert("7"@ =~= seq!['7']);
    let name = head + digits + seq!['b'] + tail;
    let at = head.len() + digits.len() - 1;
    assert(forall|i: int| 0 <= i < digits.len() ==> is_digit(#[trigger] digits[i]));
    assert(name[at] == digits[digits.len() - 1]);
    assert forall|j: int| 0 <= j < at implies !size_at(name, j) by {
        if j + 1 < head.len() {
            assert(name[j] == head[j] && name[j + 1] == head[j + 1]);
        } else if j >= head.len() {
            assert(name[j + 1] == digits[j + 1 - head.len()]);
        } else {
            assert(name[j] == head.last());
        }
    }
    assert(first_size_at(name, at));
    lemma_first_size_unique(name, at);
    assert(name.take(at + 1) == head + digits);
    lemma_digit_suffix_is(head, digits);
    lemma_zero_decimal(digits);
}

} // verus!
