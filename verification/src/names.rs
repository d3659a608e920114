//! File names: where the extension starts, what the stem is, and how a name
//! is numbered when the plain name is already taken.
//!
//! A file name here is the final component of a path, as a sequence of
//! characters. Its extension is the text after its last `.`; a name that
//! holds no `.` has none.

use vstd::prelude::*;
use vstd::string::*;

verus! {

/// Index of the last `.` in `name`, or -1 where there is none.
pub open spec fn last_dot(name: Seq<char>) -> int
    decreases name.len(),
{
    if name.len() == 0 {
        -1
    } else if name.last() == '.' {
        name.len() - 1
    } else {
        last_dot(name.drop_last())
    }
}

/// A name has an extension when it holds a `.`, wherever the `.` stands:
/// `.gitignore` has the extension `gitignore`, and `notes.` an empty one.
pub open spec fn has_extension(name: Seq<char>) -> bool {
    last_dot(name) >= 0
}

/// The text after the last `.`, where the name has an extension.
pub open spec fn extension_of(name: Seq<char>) -> Option<Seq<char>> {
    if has_extension(name) {
        Some(name.subrange(last_dot(name) + 1, name.len() as int))
    } else {
        None
    }
}

/// The text before the last `.`, or the whole name where it has no extension.
pub open spec fn stem_of(name: Seq<char>) -> Seq<char> {
    if has_extension(name) {
        name.subrange(0, last_dot(name))
    } else {
        name
    }
}

/// `last_dot` is the position of a `.` with no `.` behind it, and -1 exactly
/// when the name holds none.
pub proof fn lemma_last_dot(name: Seq<char>)
    ensures
        -1 <= last_dot(name) < name.len(),
        last_dot(name) >= 0 ==> name[last_dot(name)] == '.',
        forall|j: int| last_dot(name) < j < name.len() ==> name[j] != '.',
    decreases name.len(),
{
    if name.len() > 0 && name.last() != '.' {
        let front = name.drop_last();
        lemma_last_dot(front);
        assert forall|j: int| last_dot(name) < j < name.len() implies name[j] != '.' by {
            if j < front.len() {
                assert(front[j] == name[j]);
            }
        }
    }
}

/// A name with an extension is its stem, a `.`, and its extension.
pub proof fn lemma_stem_dot_extension(name: Seq<char>)
    requires
        has_extension(name),
    ensures
        name == stem_of(name) + seq!['.'] + extension_of(name)->0,
        !extension_of(name)->0.contains('.'),
{
    lemma_last_dot(name);
    let ext = extension_of(name)->0;
    assert(name =~= stem_of(name) + seq!['.'] + ext);
    assert forall|j: int| 0 <= j < ext.len() implies ext[j] != '.' by {
        assert(ext[j] == name[last_dot(name) + 1 + j]);
    }
}

/// The decimal digit for `d`, which is below ten.
pub open spec fn digit_char(d: nat) -> char {
    if d == 0 {
        '0'
    } else if d == 1 {
        '1'
    } else if d == 2 {
        '2'
    } else if d == 3 {
        '3'
    } else if d == 4 {
        '4'
    } else if d == 5 {
        '5'
    } else if d == 6 {
        '6'
    } else if d == 7 {
        '7'
    } else if d == 8 {
        '8'
    } else {
        '9'
    }
}

/// `n` written in decimal, most significant digit first, without leading zeros.
pub open spec fn decimal(n: nat) -> Seq<char>
    decreases n,
{
    if n < 10 {
        seq![digit_char(n)]
    } else {
        decimal(n / 10).push(digit_char(n % 10))
    }
}

/// The name tried after `counter - 1` others were taken: the stem, `_`, the
/// counter in decimal, `.`, and the extension as the file spells it.
pub open spec fn numbered_name(stem: Seq<char>, counter: nat, extension: Seq<char>) -> Seq<char> {
    stem + seq!['_'] + decimal(counter) + seq!['.'] + extension
}

/// The name that the `attempt`-th try gives a file: its own name first, then
/// its numbered names from 1 on.
pub open spec fn candidate_name(name: Seq<char>, attempt: nat) -> Seq<char> {
    if attempt == 0 || !has_extension(name) {
        name
    } else {
        numbered_name(stem_of(name), attempt, extension_of(name)->0)
    }
}

/// The number that a decimal digit stands for.
pub open spec fn digit_value(digit: char) -> nat {
    if digit == '1' {
        1
    } else if digit == '2' {
        2
    } else if digit == '3' {
        3
    } else if digit == '4' {
        4
    } else if digit == '5' {
        5
    } else if digit == '6' {
        6
    } else if digit == '7' {
        7
    } else if digit == '8' {
        8
    } else if digit == '9' {
        9
    } else {
        0
    }
}

/// The number that a text of decimal digits stands for.
pub open spec fn decimal_value(digits: Seq<char>) -> nat
    decreases digits.len(),
{
    if digits.len() == 0 {
        0
    } else {
        decimal_value(digits.drop_last()) * 10 + digit_value(digits.last())
    }
}

/// A number written in decimal reads back as itself, so two numbers with one
/// spelling are one number.
pub proof fn lemma_decimal_reads_back(n: nat)
    ensures
        decimal_value(decimal(n)) == n,
        decimal(n).len() >= 1,
    decreases n,
{
    let digits = decimal(n);
    if n < 10 {
        assert(digits.drop_last() =~= Seq::<char>::empty());
        assert(digits.last() == digit_char(n));
        assert(decimal_value(digits.drop_last()) == 0);
        assert(digit_value(digit_char(n)) == n);
    } else {
        lemma_decimal_reads_back(n / 10);
        assert(digits.drop_last() =~= decimal(n / 10));
        assert(digits.last() == digit_char(n % 10));
        assert(digit_value(digit_char(n % 10)) == n % 10);
        assert(decimal_value(digits) == (n / 10) * 10 + n % 10);
    }
}

/// Two tries give a file two names: its own name and its numbered names all
/// differ, so counting up reaches a name that is free whenever one is.
pub proof fn lemma_candidates_differ(name: Seq<char>, first: nat, second: nat)
    requires
        has_extension(name),
        first != second,
    ensures
        candidate_name(name, first) != candidate_name(name, second),
{
    lemma_stem_dot_extension(name);
    lemma_decimal_reads_back(first);
    lemma_decimal_reads_back(second);
    let stem = stem_of(name);
    let one = decimal(first);
    let two = decimal(second);
    if first != 0 && second != 0 {
        let a = candidate_name(name, first);
        let b = candidate_name(name, second);
        if a == b {
            assert(a.len() == b.len());
            assert(one.len() == two.len());
            let start = stem.len() as int + 1;
            assert(one =~= a.subrange(start, start + one.len()));
            assert(two =~= b.subrange(start, start + two.len()));
        }
    }
}

/// Finds the last `.` of a name.
pub fn find_last_dot(name: &str) -> (found: Option<usize>)
    ensures
        found is None <==> last_dot(name@) == -1,
        found is Some ==> found->0 as int == last_dot(name@),
{
    let len: usize = name.unicode_len();
    let mut i: usize = len;
    proof {
        assert(name@.subrange(0, len as int) =~= name@);
    }
    while i > 0
        invariant
            i <= len,
            len == name@.len(),
            last_dot(name@) == last_dot(name@.subrange(0, i as int)),
        decreases i,
    {
        let c = name.get_char(i - 1);
        let ghost prefix = name@.subrange(0, i as int);
        proof {
            assert(prefix.last() == c);
            assert(prefix.drop_last() =~= name@.subrange(0, i - 1));
        }
        if c == '.' {
            return Some(i - 1);
        }
        i = i - 1;
    }
    proof {
        assert(name@.subrange(0, 0).len() == 0);
    }
    None
}

/// The extension of a file name: the text after its last `.`, as the name
/// spells it; `None` where the name holds no `.`.
pub fn extension(name: &str) -> (found: Option<String>)
    ensures
        found is Some <==> has_extension(name@),
        found is Some ==> Some(found->0@) == extension_of(name@),
{
    proof {
        lemma_last_dot(name@);
    }
    match find_last_dot(name) {
        None => None,
        Some(dot) => {
            let len: usize = name.unicode_len();
            Some(String::from_str(name.substring_char(dot + 1, len)))
        },
    }
}

/// The stem of a file name: the text before its last `.`, or the whole name
/// where it has no extension.
pub fn stem(name: &str) -> (text: String)
    ensures
        text@ == stem_of(name@),
{
    proof {
        lemma_last_dot(name@);
    }
    match find_last_dot(name) {
        None => String::from_str(name),
        Some(dot) => String::from_str(name.substring_char(0, dot)),
    }
}

/// The text of one decimal digit.
fn digit_text(d: u64) -> (text: &'static str)
    requires
        d < 10,
    ensures
        text@ == seq![digit_char(d as nat)],
{
    proof {
        reveal_strlit("0");
        reveal_strlit("1");
        reveal_strlit("2");
        reveal_strlit("3");
        reveal_strlit("4");
        reveal_strlit("5");
        reveal_strlit("6");
        reveal_strlit("7");
        reveal_strlit("8");
        reveal_strlit("9");
    }
    let text = if d == 0 {
        "0"
    } else if d == 1 {
        "1"
    } else if d == 2 {
        "2"
    } else if d == 3 {
        "3"
    } else if d == 4 {
        "4"
    } else if d == 5 {
        "5"
    } else if d == 6 {
        "6"
    } else if d == 7 {
        "7"
    } else if d == 8 {
        "8"
    } else {
        "9"
    };
    assert(text@ =~= seq![digit_char(d as nat)]);
    text
}

/// Writes a number in decimal.
pub fn decimal_text(n: u64) -> (text: String)
    ensures
        text@ == decimal(n as nat),
    decreases n,
{
    if n < 10 {
        String::from_str(digit_text(n))
    } else {
        let mut text = decimal_text(n / 10);
        text.append(digit_text(n % 10));
        proof {
            assert(text@ =~= decimal((n / 10) as nat).push(digit_char((n % 10) as nat)));
        }
        text
    }
}

/// The name that try number `attempt` gives a file called `name`: `name`
/// itself at 0 and for a name without extension; from 1 on, the stem, `_`,
/// the number, `.`, and the extension (`photo_2.JPG` for `photo.JPG` at 2).
pub fn candidate(name: &str, attempt: u64) -> (text: String)
    ensures
        text@ == candidate_name(name@, attempt as nat),
{
    if attempt == 0 {
        return String::from_str(name);
    }
    match extension(name) {
        None => String::from_str(name),
        Some(ext) => {
            let mut text = stem(name);
            let number = decimal_text(attempt);
            proof {
                reveal_strlit("_");
                reveal_strlit(".");
            }
            text.append("_");
            text.append(number.as_str());
            text.append(".");
            text.append(ext.as_str());
            proof {
                assert(text@ =~= numbered_name(
                    stem_of(name@),
                    attempt as nat,
                    extension_of(name@)->0,
                ));
            }
            text
        },
    }
}

} // verus!
