//! Texts for people.

use vstd::prelude::*;
use vstd::string::to_string_from_display_ensures;
use vstd::string::StringExecFns;

verus! {

/// The decimal digit of a number below ten.
pub open spec fn digit(n: nat) -> char {
    if n == 0 {
        '0'
    } else if n == 1 {
        '1'
    } else if n == 2 {
        '2'
    } else if n == 3 {
        '3'
    } else if n == 4 {
        '4'
    } else if n == 5 {
        '5'
    } else if n == 6 {
        '6'
    } else if n == 7 {
        '7'
    } else if n == 8 {
        '8'
    } else {
        '9'
    }
}

/// A number in decimal notation.
pub open spec fn decimal(n: nat) -> Seq<char>
    decreases n,
{
    if n < 10 {
        seq![digit(n)]
    } else {
        decimal(n / 10).push(digit(n % 10))
    }
}

/// The number that a character stands for as a decimal digit.
pub open spec fn digit_value(c: char) -> int {
    c as int - '0' as int
}

/// The number that a text stands for in decimal notation.
pub open spec fn number_read(text: Seq<char>) -> int
    decreases text.len(),
{
    if text.len() == 0 {
        0
    } else {
        10 * number_read(text.drop_last()) + digit_value(text.last())
    }
}

/// A number is read back from its decimal notation, which is made of digits and starts with no
/// zero but that of zero itself.
pub proof fn law_decimal_is_read_back(n: nat, i: int)
    ensures
        number_read(decimal(n)) == n,
        decimal(n).len() > 0,
        0 <= i < decimal(n).len() ==> 0 <= digit_value(decimal(n)[i]) < 10,
        n > 0 ==> digit_value(decimal(n)[0]) > 0,
    decreases n,
{
    let text = decimal(n);
    if n < 10 {
        assert(text.drop_last() =~= Seq::empty());
        assert(number_read(text.drop_last()) == 0);
        assert(text.last() == digit(n));
    } else {
        law_decimal_is_read_back(n / 10, i);
        law_decimal_is_read_back(n / 10, 0);
        assert(text.drop_last() =~= decimal(n / 10));
        assert(text.last() == digit(n % 10));
    }
}

/// Appends the decimal digit of a number below ten.
fn append_digit(s: &mut String, n: usize)
    requires
        n < 10,
    ensures
        final(s)@ == old(s)@.push(digit(n as nat)),
{
    proof {
        reveal_strlit("0");
        reveal_strlit("1");
        reveal_strlit("2");
        reveal_strlit("3");
        reveal_strlit("4");
        reveal_strlit("5");
        reveal_strlit("6");
        reveal_strlit("7");
        reveal_strlit("8");
        reveal_strlit("9");
    }
    let d: &str = match n {
        0 => "0",
        1 => "1",
        2 => "2",
        3 => "3",
        4 => "4",
        5 => "5",
        6 => "6",
        7 => "7",
        8 => "8",
        _ => "9",
    };
    s.append(d);
    assert(s@ =~= old(s)@.push(digit(n as nat)));
}

/// Appends a number in decimal notation.
pub fn append_decimal(s: &mut String, n: usize)
    ensures
        final(s)@ == old(s)@ + decimal(n as nat),
    decreases n,
{
    let ghost before = s@;
    if n < 10 {
        append_digit(s, n);
        assert(s@ =~= before + decimal(n as nat));
    } else {
        append_decimal(s, n / 10);
        append_digit(s, n % 10);
        assert(s@ =~= before + decimal(n as nat));
    }
}

/// The given texts, with a comma and a blank between them.
pub open spec fn joined(texts: Seq<Seq<char>>) -> Seq<char>
    decreases texts.len(),
{
    if texts.len() == 0 {
        Seq::empty()
    } else if texts.len() == 1 {
        texts[0]
    } else {
        joined(texts.drop_last()) + seq![',', ' '] + texts.last()
    }
}

/// The texts of two lists are joined by joining those of each, with a comma and a blank between
/// them, and a single text is joined to itself.
pub proof fn law_joined_lists_are_joined(a: Seq<Seq<char>>, b: Seq<Seq<char>>, text: Seq<char>)
    ensures
        joined(seq![text]) == text,
        joined(Seq::empty()).len() == 0,
        a.len() > 0 && b.len() > 0 ==> joined(a + b) == joined(a) + seq![',', ' '] + joined(b),
    decreases b.len(),
{
    if a.len() > 0 && b.len() > 0 {
        let all = a + b;
        let front = b.drop_last();
        assert(all.drop_last() =~= a + front);
        assert(all.last() == b.last());
        if front.len() == 0 {
            assert(a + front =~= a);
            assert(b[0] == b.last());
        } else {
            law_joined_lists_are_joined(a, front, text);
            assert(joined(all) =~= joined(a) + seq![',', ' '] + joined(b));
        }
    }
}

/// What the texts of a list say.
pub open spec fn contents(texts: Seq<String>) -> Seq<Seq<char>> {
    Seq::new(texts.len(), |i: int| texts[i]@)
}

/// Whether a list of texts holds the text of each element of another list.
pub open spec fn are_texts_of<T: core::fmt::Display>(texts: Seq<String>, list: Seq<T>) -> bool {
    &&& texts.len() == list.len()
    &&& forall|i: int|
        0 <= i < texts.len() ==> to_string_from_display_ensures::<T>(&list[i], #[trigger] texts[i])
}

/// Joins the texts of a list, with a comma and a blank between them.
pub fn to_comma_separated_list<T: core::fmt::Display>(list: &Vec<T>) -> (r: String)
    ensures
        exists|texts: Seq<String>| #[trigger]
            are_texts_of(texts, list@) && r@ == joined(contents(texts)),
{
    let mut r = String::new();
    let ghost mut texts: Seq<String> = Seq::empty();
    let n: usize = list.len();
    let mut i: usize = 0;
    assert(r@ =~= joined(contents(texts)));
    while i < n
        invariant
            n == list@.len(),
            i <= n,
            are_texts_of(texts, list@.take(i as int)),
            r@ == joined(contents(texts)),
        decreases n - i,
    {
        proof {
            reveal_strlit(", ");
        }
        let text = list[i].to_string();
        let ghost before = texts;
        if i > 0 {
            r.append(", ");
        }
        r.append(text.as_str());
        proof {
            texts = texts.push(text);
            assert(contents(texts).drop_last() =~= contents(before));
            assert(contents(texts).last() == text@);
            assert(r@ =~= joined(contents(texts)));
            assert forall|j: int| 0 <= j < texts.len() implies to_string_from_display_ensures::<T>(
                &list@.take(i + 1)[j],
                #[trigger] texts[j],
            ) by {
                if j < i {
                    assert(texts[j] == before[j]);
                    assert(list@.take(i + 1)[j] == list@.take(i as int)[j]);
                }
            }
        }
        i = i + 1;
    }
    assert(list@.take(n as int) =~= list@);
    r
}

} // verus!
