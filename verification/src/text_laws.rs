//! What numbers, durations and columns look like.

use crate::store::cf::{all_digits, digits_value, is_digit};
use crate::text::{
    decimal, digit_char, duration, grouped, left_aligned, right_aligned, signed, spaces,
    three_digits, two_digits, without_final_slashes,
};
use vstd::prelude::*;

verus! {

/// A numeral is made of digits, has no leading zero but for zero itself, and spells its number.
pub proof fn law_numeral_spells_its_number(n: nat)
    ensures
        decimal(n).len() > 0,
        all_digits(decimal(n)),
        digits_value(decimal(n)) == n,
        decimal(n)[0] == '0' ==> n == 0 && decimal(n).len() == 1,
    decreases n,
{
    if n >= 10 {
        let front = decimal(n / 10);
        law_numeral_spells_its_number(n / 10);
        assert(decimal(n).drop_last() =~= front);
        assert(decimal(n)[0] == front[0]);
        assert forall|i: int| 0 <= i < decimal(n).len() implies is_digit(#[trigger] decimal(n)[i]) by {
            if i < front.len() {
                assert(decimal(n)[i] == front[i]);
            }
        }
    } else {
        let one = seq![digit_char(n)];
        assert(decimal(n) =~= one);
        assert(one.drop_last() =~= Seq::empty());
        assert(digits_value(one.drop_last()) == 0);
        assert(digits_value(one) == (one.last() as nat - 48) as nat);
    }
}

/// A negative number's numeral is a minus sign and that of its size; any other's has no sign.
pub proof fn law_sign_goes_first(n: int)
    ensures
        n < 0 ==> signed(n).len() > 1 && signed(n)[0] == '-' && digits_value(signed(n).skip(1)) == -n
            && all_digits(signed(n).skip(1)),
        n >= 0 ==> all_digits(signed(n)) && digits_value(signed(n)) == n,
{
    reveal_strlit("-");
    if n < 0 {
        law_numeral_spells_its_number((-n) as nat);
        assert(signed(n).skip(1) =~= decimal((-n) as nat));
    } else {
        law_numeral_spells_its_number(n as nat);
    }
}

/// Two padded digits spell their number.
pub proof fn law_two_digits_spell_their_number(n: nat)
    requires
        n < 100,
    ensures
        two_digits(n).len() == 2,
        all_digits(two_digits(n)),
        digits_value(two_digits(n)) == n,
{
    let s = two_digits(n);
    assert(s.drop_last() =~= seq![digit_char(n / 10)]);
    assert(s.drop_last().drop_last() =~= Seq::empty());
    assert(digits_value(s.drop_last().drop_last()) == 0);
    assert(digits_value(s.drop_last()) == n / 10);
}

/// Text without its commas.
pub open spec fn without_commas(s: Seq<char>) -> Seq<char>
    decreases s.len(),
{
    if s.len() == 0 {
        s
    } else if s.last() == ',' {
        without_commas(s.drop_last())
    } else {
        without_commas(s.drop_last()).push(s.last())
    }
}

proof fn lemma_without_commas_concat(a: Seq<char>, b: Seq<char>)
    ensures
        without_commas(a + b) == without_commas(a) + without_commas(b),
    decreases b.len(),
{
    if b.len() == 0 {
        assert(a + b =~= a);
        assert(without_commas(a) + without_commas(b) =~= without_commas(a));
    } else {
        lemma_without_commas_concat(a, b.drop_last());
        assert((a + b).drop_last() =~= a + b.drop_last());
        assert(without_commas(a + b) =~= without_commas(a) + without_commas(b));
    }
}

proof fn lemma_digits_have_no_commas(s: Seq<char>)
    requires
        all_digits(s),
    ensures
        without_commas(s) == s,
    decreases s.len(),
{
    if s.len() > 0 {
        assert(is_digit(s[s.len() - 1]));
        assert forall|i: int| 0 <= i < s.len() - 1 implies is_digit(#[trigger] s.drop_last()[i]) by {
            assert(is_digit(s[i]));
        }
        lemma_digits_have_no_commas(s.drop_last());
        assert(s.drop_last().push(s.last()) =~= s);
    }
}

/// A grouped number is its numeral with a comma before every three digits, counted from the last.
pub proof fn law_commas_part_thousands(n: nat)
    ensures
        without_commas(grouped(n)) == decimal(n),
        forall|i: int|
            0 <= i < grouped(n).len() ==> (#[trigger] grouped(n)[i] == ',' <==> (grouped(n).len() - i)
                % 4 == 0),
        grouped(n)[0] != ',',
    decreases n,
{
    law_numeral_spells_its_number(n);
    if n < 1000 {
        lemma_digits_have_no_commas(decimal(n));
        assert(decimal(n).len() <= 3) by {
            reveal_with_fuel(decimal, 4);
        }
        assert forall|i: int| 0 <= i < grouped(n).len() implies (#[trigger] grouped(n)[i] == ','
            <==> (grouped(n).len() - i) % 4 == 0) by {
            assert(is_digit(decimal(n)[i]));
        }
    } else {
        reveal_strlit(",");
        let front = grouped(n / 1000);
        let last = three_digits(n % 1000);
        law_commas_part_thousands(n / 1000);
        let all = grouped(n);
        assert(all == front + ","@ + last);
        assert forall|i: int| 0 <= i < last.len() implies is_digit(#[trigger] last[i]) by {}
        lemma_digits_have_no_commas(last);
        lemma_without_commas_concat(front, ","@);
        lemma_without_commas_concat(front + ","@, last);
        assert(without_commas(","@) =~= Seq::empty()) by {
            assert(","@.drop_last() =~= Seq::empty());
            assert(","@.last() == ',');
            assert(without_commas(","@.drop_last()) =~= Seq::empty());
        }
        assert(without_commas(front) + without_commas(","@) =~= without_commas(front));
        let a = decimal(n / 1000);
        assert(n / 10 / 10 / 10 == n / 1000);
        assert(decimal(n) == decimal(n / 10).push(digit_char(n % 10)));
        assert(decimal(n / 10) == decimal(n / 10 / 10).push(digit_char(n / 10 % 10)));
        assert(decimal(n / 10 / 10) == decimal(n / 10 / 10 / 10).push(digit_char(n / 10 / 10 % 10)));
        assert(n % 1000 / 100 == n / 10 / 10 % 10);
        assert(n % 1000 / 10 % 10 == n / 10 % 10);
        assert(n % 1000 % 10 == n % 10);
        assert(a + last =~= decimal(n));
        assert forall|i: int| 0 <= i < all.len() implies (#[trigger] all[i] == ',' <==> (all.len()
            - i) % 4 == 0) by {
            if i < front.len() {
                assert(all[i] == front[i]);
            } else if i == front.len() {
            } else {
                assert(all[i] == last[i - front.len() - 1]);
                assert(is_digit(last[i - front.len() - 1]));
            }
        }
        assert(all[0] == front[0]);
    }
}

/// A duration of hours, minutes and seconds is shown by its two largest units from the first that
/// is not zero: hours with padded minutes, minutes with padded seconds, or seconds. One that lies
/// behind is shown as now.
pub proof fn law_duration_shows_its_largest_units(hours: int, minutes: int, seconds: int)
    requires
        0 <= hours,
        0 <= minutes < 60,
        0 <= seconds < 60,
    ensures
        ({
            let shown = duration(hours * 3600 + minutes * 60 + seconds);
            &&& hours > 0 ==> shown == decimal(hours as nat) + "h"@ + two_digits(minutes as nat)
                + "m"@
            &&& hours == 0 && minutes > 0 ==> shown == decimal(minutes as nat) + "m"@ + two_digits(
                seconds as nat,
            ) + "s"@
            &&& hours == 0 && minutes == 0 ==> shown == decimal(seconds as nat) + "s"@
        }),
        hours + minutes + seconds > 0 ==> duration(-(hours * 3600 + minutes * 60 + seconds))
            == "now"@,
{
    let s = hours * 3600 + minutes * 60 + seconds;
    if hours > 0 {
        assert(s / 3600 == hours && s % 3600 == minutes * 60 + seconds);
        assert(s % 3600 / 60 == minutes);
    }
}

/// A column holds its text at one end and spaces at the other, and is as wide as it should be unless
/// the text is wider.
pub proof fn law_columns_are_filled_up(s: Seq<char>, width: nat, i: int)
    ensures
        s.is_prefix_of(left_aligned(s, width)),
        s.is_suffix_of(right_aligned(s, width)),
        s.len() <= width ==> left_aligned(s, width).len() == width && right_aligned(s, width).len()
            == width,
        s.len() > width ==> left_aligned(s, width) == s && right_aligned(s, width) == s,
        s.len() <= i < width ==> left_aligned(s, width)[i] == ' ',
        0 <= i < width - s.len() ==> right_aligned(s, width)[i] == ' ',
{
    let fill = spaces(width - s.len());
    assert(s =~= left_aligned(s, width).subrange(0, s.len() as int));
    assert(s =~= right_aligned(s, width).subrange(
        fill.len() as int,
        right_aligned(s, width).len() as int,
    ));
    if s.len() > width {
        assert(left_aligned(s, width) =~= s);
        assert(right_aligned(s, width) =~= s);
    }
}

/// What is left of an address without its final slashes does not end in one, and slashes alone were
/// taken away.
pub proof fn law_only_final_slashes_go(s: Seq<char>)
    ensures
        ({
            let kept = without_final_slashes(s);
            &&& kept.is_prefix_of(s)
            &&& kept.len() > 0 ==> kept.last() != '/'
            &&& forall|i: int| kept.len() <= i < s.len() ==> #[trigger] s[i] == '/'
        }),
    decreases s.len(),
{
    if s.len() > 0 && s.last() == '/' {
        let front = s.drop_last();
        law_only_final_slashes_go(front);
        let kept = without_final_slashes(front);
        assert(kept =~= s.subrange(0, kept.len() as int));
        assert forall|i: int| kept.len() <= i < s.len() implies #[trigger] s[i] == '/' by {
            if i < front.len() {
                assert(front[i] == s[i]);
            }
        }
    } else {
        assert(s =~= s.subrange(0, s.len() as int));
    }
}

} // verus!
