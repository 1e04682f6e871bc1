//! Numbers and labels as text.

use crate::nodes::NodeKind;
use vstd::prelude::*;

verus! {

/// The decimal digit of a number below ten.
pub open spec fn digit(d: nat) -> char {
    if d == 0 {
        '0'
    } else if d == 1 {
        '1'
    } else if d == 2 {
        '2'
    } else if d == 3 {
        '3'
    } else if d == 4 {
        '4'
    } else if d == 5 {
        '5'
    } else if d == 6 {
        '6'
    } else if d == 7 {
        '7'
    } else if d == 8 {
        '8'
    } else {
        '9'
    }
}

/// A number in decimal notation, without leading zeros.
pub open spec fn decimal(n: nat) -> Seq<char>
    decreases n,
{
    if n < 10 {
        seq![digit(n)]
    } else {
        decimal(n / 10).push(digit(n % 10))
    }
}

/// A text of printable ASCII characters only: from the space to the tilde.
pub open spec fn printable(text: Seq<char>) -> bool {
    forall|i: int| 0 <= i < text.len() ==> 0x20 <= #[trigger] text[i] as u32 <= 0x7e
}

/// How a kind of node is written in lower case.
pub open spec fn kind_text(kind: NodeKind) -> Seq<char> {
    match kind {
        NodeKind::Honest => "honest"@,
        NodeKind::Malicious => "malicious"@,
    }
}

/// How a kind of node is written with a capital.
pub open spec fn kind_title(kind: NodeKind) -> Seq<char> {
    match kind {
        NodeKind::Honest => "Honest"@,
        NodeKind::Malicious => "Malicious"@,
    }
}

/// How a flag is written.
pub open spec fn flag_text(flag: bool) -> Seq<char> {
    if flag {
        "yes"@
    } else {
        "no"@
    }
}

/// The texts in `parts`, with `separator` between each two of them.
pub open spec fn joined(parts: Seq<Seq<char>>, separator: Seq<char>) -> Seq<char>
    decreases parts.len(),
{
    if parts.len() == 0 {
        Seq::empty()
    } else if parts.len() == 1 {
        parts[0]
    } else {
        joined(parts.drop_last(), separator) + separator + parts.last()
    }
}

/// A number in decimal notation is printable.
pub proof fn lemma_decimal_printable(n: nat)
    ensures
        printable(decimal(n)),
        decimal(n).len() > 0,
    decreases n,
{
    if n >= 10 {
        lemma_decimal_printable(n / 10);
    }
}

/// Two printable texts make one printable text.
pub proof fn lemma_printable_concat(a: Seq<char>, b: Seq<char>)
    requires
        printable(a),
        printable(b),
    ensures
        printable(a + b),
{
}

/// Printable texts, joined by a printable separator, are printable.
pub proof fn lemma_joined_printable(parts: Seq<Seq<char>>, separator: Seq<char>)
    requires
        forall|k: int| 0 <= k < parts.len() ==> printable(#[trigger] parts[k]),
        printable(separator),
    ensures
        printable(joined(parts, separator)),
    decreases parts.len(),
{
    if parts.len() > 1 {
        lemma_joined_printable(parts.drop_last(), separator);
        lemma_printable_concat(joined(parts.drop_last(), separator), separator);
        lemma_printable_concat(joined(parts.drop_last(), separator) + separator, parts.last());
    }
}

fn digit_str(d: u128) -> (text: &'static str)
    requires
        d < 10,
    ensures
        text@ == seq![digit(d as nat)],
{
    proof {
        reveal_strlit("0");
        reveal_strlit("1");
        reveal_strlit("2");
        reveal_strlit("3");
        reveal_strlit("4");
        reveal_strlit("5");
        reveal_strlit("6");
        reveal_strlit("7");
        reveal_strlit("8");
        reveal_strlit("9");
    }
    let text = if d == 0 {
        "0"
    } else if d == 1 {
        "1"
    } else if d == 2 {
        "2"
    } else if d == 3 {
        "3"
    } else if d == 4 {
        "4"
    } else if d == 5 {
        "5"
    } else if d == 6 {
        "6"
    } else if d == 7 {
        "7"
    } else if d == 8 {
        "8"
    } else {
        "9"
    };
    assert(text@ =~= seq![digit(d as nat)]);
    text
}

/// Writes a number in decimal notation.
pub fn decimal_string(n: u128) -> (text: String)
    ensures
        text@ == decimal(n as nat),
    decreases n,
{
    if n < 10 {
        String::from_str(digit_str(n))
    } else {
        let mut text = decimal_string(n / 10);
        text.append(digit_str(n % 10));
        assert(text@ =~= decimal(n as nat));
        text
    }
}

/// The lower-case name of a kind of node.
pub fn kind_str(kind: NodeKind) -> (text: &'static str)
    ensures
        text@ == kind_text(kind),
        printable(text@),
{
    proof {
        reveal_strlit("honest");
        reveal_strlit("malicious");
    }
    match kind {
        NodeKind::Honest => "honest",
        NodeKind::Malicious => "malicious",
    }
}

/// Writes a flag.
pub fn flag_str(flag: bool) -> (text: &'static str)
    ensures
        text@ == flag_text(flag),
        printable(text@),
{
    proof {
        reveal_strlit("yes");
        reveal_strlit("no");
    }
    if flag {
        "yes"
    } else {
        "no"
    }
}

/// The capitalised name of a kind of node.
pub fn kind_title_str(kind: NodeKind) -> (text: &'static str)
    ensures
        text@ == kind_title(kind),
        printable(text@),
{
    proof {
        reveal_strlit("Honest");
        reveal_strlit("Malicious");
    }
    match kind {
        NodeKind::Honest => "Honest",
        NodeKind::Malicious => "Malicious",
    }
}

} // verus!
