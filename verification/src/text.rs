//! String helpers shared by the rest of the crate: qualified names, dotted
//! chains, identifier shape and decimal numbers.

use vstd::prelude::*;

verus! {

/// `<file>.<block>.<rule>`: the three components joined by dots. An empty
/// file alias leaves a leading dot.
pub open spec fn qualified(file: Seq<char>, block: Seq<char>, rule: Seq<char>) -> Seq<char> {
    file + seq!['.'] + block + seq!['.'] + rule
}

/// The components of a chain joined by dots.
pub open spec fn dotted(tokens: Seq<Seq<char>>) -> Seq<char>
    decreases tokens.len(),
{
    if tokens.len() == 0 {
        Seq::empty()
    } else if tokens.len() == 1 {
        tokens[0]
    } else {
        dotted(tokens.drop_last()) + seq!['.'] + tokens.last()
    }
}

/// The views of a list of strings.
pub open spec fn string_views(v: Seq<String>) -> Seq<Seq<char>> {
    Seq::new(v.len(), |i: int| v[i]@)
}

/// Whether `s` and the literal `lit` hold the same characters.
pub fn str_is(s: &String, lit: &str) -> (r: bool)
    ensures
        r == (s@ == lit@),
{
    let other = String::from_str(lit);
    *s == other
}

/// Appends `tail` to a copy of `head`.
pub fn appended(head: &String, tail: &str) -> (r: String)
    ensures
        r@ == head@ + tail@,
{
    let mut s = head.clone();
    s.append(tail);
    s
}

/// `<file>.<block>.<rule>`.
pub fn qualify(file: &String, block: &String, rule: &String) -> (r: String)
    ensures
        r@ == qualified(file@, block@, rule@),
{
    proof {
        reveal_strlit(".");
    }
    let mut s = file.clone();
    s.append(".");
    s.append(block.as_str());
    s.append(".");
    s.append(rule.as_str());
    assert("."@ =~= seq!['.']);
    s
}

/// The components of a chain joined by dots.
pub fn join_dotted(tokens: &Vec<String>) -> (r: String)
    ensures
        r@ == dotted(string_views(tokens@)),
{
    let mut s = String::new();
    let mut i: usize = 0;
    let ghost views = string_views(tokens@);
    while i < tokens.len()
        invariant
            0 <= i <= tokens.len(),
            views == string_views(tokens@),
            s@ == dotted(views.take(i as int)),
        decreases tokens.len() - i,
    {
        proof {
            reveal_strlit(".");
            assert("."@ =~= seq!['.']);
            assert(views.take(i as int + 1).drop_last() =~= views.take(i as int));
            assert(views.take(i as int + 1).last() == tokens@[i as int]@);
            if i == 0 {
                assert(views.take(0) =~= Seq::<Seq<char>>::empty());
                assert(s@ =~= Seq::<char>::empty());
                assert(s@ + tokens@[0]@ =~= tokens@[0]@);
            }
        }
        if i > 0 {
            s.append(".");
        }
        s.append(tokens[i].as_str());
        i = i + 1;
    }
    proof {
        assert(views.take(i as int) =~= views);
    }
    s
}

/// Whether some string of `list` equals `s`.
pub open spec fn has_string(list: Seq<Seq<char>>, s: Seq<char>) -> bool {
    exists|i: int| 0 <= i < list.len() && list[i] == s
}

/// Whether some string of `list` equals `s`.
pub fn contains_string(list: &Vec<String>, s: &String) -> (r: bool)
    ensures
        r == has_string(string_views(list@), s@),
{
    let mut i: usize = 0;
    while i < list.len()
        invariant
            0 <= i <= list.len(),
            forall|j: int| 0 <= j < i ==> string_views(list@)[j] != s@,
        decreases list.len() - i,
    {
        if list[i] == *s {
            assert(string_views(list@)[i as int] == s@);
            return true;
        }
        i = i + 1;
    }
    false
}

/// What `char::is_uppercase` answers for a character: whether it has the
/// Unicode property `Uppercase`.
pub uninterp spec fn char_is_uppercase(c: char) -> bool;

/// `char::is_uppercase` answers by the character alone; nothing more is
/// claimed of it here.
pub assume_specification[ char::is_uppercase ](c: char) -> (r: bool)
    ensures
        r == char_is_uppercase(c),
;

/// Whether an identifier is in Pascal case, by its first character, whether
/// that character is an uppercase letter, and whether its second character
/// is one: the first character is an uppercase letter, or it is an
/// underscore that an uppercase letter follows. An identifier without
/// characters is not in Pascal case.
pub open spec fn pascal_case_by(first: Option<char>, first_is_upper: bool, second_is_upper: Option<bool>) -> bool {
    match first {
        None => false,
        Some(c) => if c != '_' {
            first_is_upper
        } else {
            second_is_upper == Some(true)
        },
    }
}

/// Whether an identifier is in Pascal case.
pub open spec fn pascal_case(id: Seq<char>) -> bool {
    pascal_case_by(
        if id.len() > 0 {
            Some(id[0])
        } else {
            None
        },
        id.len() > 0 && char_is_uppercase(id[0]),
        if id.len() > 1 {
            Some(char_is_uppercase(id[1]))
        } else {
            None
        },
    )
}

/// Whether a rule name marks the rule as private to its block.
pub open spec fn private_name(id: Seq<char>) -> bool {
    id.len() > 0 && id[0] == '_'
}

/// Whether a rule name marks the rule as private to its block.
pub fn is_private_name(id: &String) -> (r: bool)
    ensures
        r == private_name(id@),
{
    let n = id.as_str().unicode_len();
    n > 0 && id.as_str().get_char(0) == '_'
}

/// Whether a character is a decimal digit.
pub open spec fn is_digit(c: char) -> bool {
    '0' <= c && c <= '9'
}

/// The value of a decimal digit.
pub open spec fn digit_value(c: char) -> nat {
    (c as nat - '0' as nat) as nat
}

/// Whether every character is a decimal digit.
pub open spec fn all_digits(s: Seq<char>) -> bool {
    forall|i: int| 0 <= i < s.len() ==> is_digit(#[trigger] s[i])
}

/// The number that a string of decimal digits writes.
pub open spec fn decimal_value(s: Seq<char>) -> nat
    decreases s.len(),
{
    if s.len() == 0 {
        0
    } else {
        decimal_value(s.drop_last()) * 10 + digit_value(s.last())
    }
}

/// The digits of a number text: the text without one leading plus sign.
pub open spec fn number_digits(s: Seq<char>) -> Seq<char> {
    if s.len() > 0 && s[0] == '+' {
        s.drop_first()
    } else {
        s
    }
}

/// A number text is an optional plus sign followed by one or more decimal
/// digits whose value fits the machine word; anything else writes no number.
pub open spec fn parsed_number(s: Seq<char>) -> Option<usize> {
    let digits = number_digits(s);
    if digits.len() > 0 && all_digits(digits) && decimal_value(digits) <= usize::MAX {
        Some(decimal_value(digits) as usize)
    } else {
        None
    }
}

/// A longer digit string never writes a smaller number than its prefix.
pub proof fn lemma_decimal_value_prefix(s: Seq<char>, i: int)
    requires
        0 <= i <= s.len(),
    ensures
        decimal_value(s.take(i)) <= decimal_value(s),
    decreases s.len() - i,
{
    if i < s.len() {
        assert(s.take(i + 1).drop_last() =~= s.take(i));
        lemma_decimal_value_prefix(s, i + 1);
    } else {
        assert(s.take(i) =~= s);
    }
}

/// The number that a text writes.
pub fn parse_number(s: &str) -> (r: Option<usize>)
    ensures
        r == parsed_number(s@),
{
    let n = s.unicode_len();
    let mut start: usize = 0;
    if n > 0 && s.get_char(0) == '+' {
        start = 1;
    }
    if start == n {
        return None;
    }
    let ghost digits = number_digits(s@);
    assert(digits =~= s@.subrange(start as int, n as int));
    let mut acc: usize = 0;
    let mut i: usize = start;
    proof {
        assert(digits.take(0) =~= Seq::<char>::empty());
    }
    while i < n
        invariant
            start <= i <= n,
            n == s@.len(),
            digits == number_digits(s@),
            digits =~= s@.subrange(start as int, n as int),
            all_digits(digits.take(i - start)),
            acc == decimal_value(digits.take(i - start)),
        decreases n - i,
    {
        let c = s.get_char(i);
        let ghost k = i - start;
        proof {
            assert(digits[k] == c);
            assert(digits.take(k + 1).drop_last() =~= digits.take(k));
            assert(digits.take(k + 1).last() == c);
            lemma_decimal_value_prefix(digits, k + 1);
        }
        if !('0' <= c && c <= '9') {
            assert(!is_digit(digits[k]));
            return None;
        }
        let d: usize = (c as u32 - '0' as u32) as usize;
        assert(d == digit_value(c));
        if acc > (usize::MAX - d) / 10 {
            return None;
        }
        acc = acc * 10 + d;
        proof {
            assert forall|j: int| 0 <= j < k + 1 implies is_digit(#[trigger] digits.take(k + 1)[j]) by {
                if j < k {
                    assert(digits.take(k)[j] == digits.take(k + 1)[j]);
                }
            }
        }
        i = i + 1;
    }
    proof {
        assert(digits.take(i - start) =~= digits);
    }
    Some(acc)
}

/// Decides whether an identifier is in Pascal case from what is known of
/// its first two characters.
pub fn is_pascal_case_by(first: Option<char>, first_is_upper: bool, second_is_upper: Option<bool>) -> (r:
    bool)
    ensures
        r == pascal_case_by(first, first_is_upper, second_is_upper),
{
    match first {
        None => false,
        Some(c) => {
            if c != '_' {
                first_is_upper
            } else {
                match second_is_upper {
                    Some(upper) => upper,
                    None => false,
                }
            }
        },
    }
}

/// Whether an identifier is in Pascal case.
pub fn is_pascal_case(id: &String) -> (r: bool)
    ensures
        r == pascal_case(id@),
{
    let n = id.as_str().unicode_len();
    if n == 0 {
        return is_pascal_case_by(None, false, None);
    }
    let first = id.as_str().get_char(0);
    let second_is_upper = if n >= 2 {
        Some(id.as_str().get_char(1).is_uppercase())
    } else {
        None
    };
    is_pascal_case_by(Some(first), first.is_uppercase(), second_is_upper)
}

/// The character that writes a digit below ten.
pub open spec fn digit_char(d: nat) -> char {
    if d == 0 {
        '0'
    } else if d == 1 {
        '1'
    } else if d == 2 {
        '2'
    } else if d == 3 {
        '3'
    } else if d == 4 {
        '4'
    } else if d == 5 {
        '5'
    } else if d == 6 {
        '6'
    } else if d == 7 {
        '7'
    } else if d == 8 {
        '8'
    } else {
        '9'
    }
}

/// A number in decimal digits, without leading zeros.
pub open spec fn decimal_text(n: nat) -> Seq<char>
    decreases n,
{
    if n < 10 {
        seq![digit_char(n)]
    } else {
        decimal_text(n / 10).push(digit_char(n % 10))
    }
}

fn digit_str(d: usize) -> (r: &'static str)
    requires
        d < 10,
    ensures
        r@ == seq![digit_char(d as nat)],
{
    proof {
        reveal_strlit("0");
        reveal_strlit("1");
        reveal_strlit("2");
        reveal_strlit("3");
        reveal_strlit("4");
        reveal_strlit("5");
        reveal_strlit("6");
        reveal_strlit("7");
        reveal_strlit("8");
        reveal_strlit("9");
    }
    let r = if d == 0 {
        "0"
    } else if d == 1 {
        "1"
    } else if d == 2 {
        "2"
    } else if d == 3 {
        "3"
    } else if d == 4 {
        "4"
    } else if d == 5 {
        "5"
    } else if d == 6 {
        "6"
    } else if d == 7 {
        "7"
    } else if d == 8 {
        "8"
    } else {
        "9"
    };
    assert(r@ =~= seq![digit_char(d as nat)]);
    r
}

/// A number in decimal digits.
pub fn number_text(n: usize) -> (r: String)
    ensures
        r@ == decimal_text(n as nat),
    decreases n,
{
    if n < 10 {
        String::from_str(digit_str(n))
    } else {
        let mut s = number_text(n / 10);
        s.append(digit_str(n % 10));
        assert(s@ =~= decimal_text(n as nat));
        s
    }
}

/// A copy of a list of strings.
pub fn clone_strings(list: &Vec<String>) -> (r: Vec<String>)
    ensures
        string_views(r@) == string_views(list@),
{
    let mut out: Vec<String> = Vec::new();
    let mut i: usize = 0;
    while i < list.len()
        invariant
            0 <= i <= list.len(),
            out@.len() == i,
            forall|j: int| 0 <= j < i ==> out@[j]@ == list@[j]@,
        decreases list.len() - i,
    {
        out.push(list[i].clone());
        i = i + 1;
    }
    assert(string_views(out@) =~= string_views(list@));
    out
}

} // verus!
