//! Text as it is printed. Addresses are left as addresses: how one is spelt is up to the
//! terminal side.

use crate::addr::IpAddr;
use vstd::prelude::*;
use vstd::string::*;

verus! {

/// A stretch of output.
pub enum Piece {
    Text(String),
    Ip(IpAddr),
}

/// A stretch of output as characters or an address.
#[verifier::ext_equal]
pub enum PieceView {
    Text(Seq<char>),
    Ip(IpAddr),
}

impl View for Piece {
    type V = PieceView;

    open spec fn view(&self) -> PieceView {
        match self {
            Piece::Text(text) => PieceView::Text(text@),
            Piece::Ip(ip) => PieceView::Ip(*ip),
        }
    }
}

/// The output that a list of pieces stands for.
pub open spec fn shown(pieces: Seq<Piece>) -> Seq<PieceView> {
    pieces.map_values(|piece: Piece| piece@)
}

/// The character of a decimal digit.
pub open spec fn digit_char(digit: nat) -> char {
    seq!['0', '1', '2', '3', '4', '5', '6', '7', '8', '9'][digit as int]
}

/// A number in decimal, without leading zeros.
pub open spec fn decimal_of(number: nat) -> Seq<char>
    decreases number,
{
    if number < 10 {
        seq![digit_char(number)]
    } else {
        decimal_of(number / 10).push(digit_char(number % 10))
    }
}

fn digit(value: u64) -> (text: &'static str)
    requires
        value < 10,
    ensures
        text@ == seq![digit_char(value as nat)],
{
    proof {
        reveal_strlit("0");
        reveal_strlit("1");
        reveal_strlit("2");
        reveal_strlit("3");
        reveal_strlit("4");
        reveal_strlit("5");
        reveal_strlit("6");
        reveal_strlit("7");
        reveal_strlit("8");
        reveal_strlit("9");
    }
    match value {
        0 => "0",
        1 => "1",
        2 => "2",
        3 => "3",
        4 => "4",
        5 => "5",
        6 => "6",
        7 => "7",
        8 => "8",
        _ => "9",
    }
}

/// Writes a number in decimal.
pub fn decimal(number: u64) -> (text: String)
    ensures
        text@ == decimal_of(number as nat),
    decreases number,
{
    if number < 10 {
        String::from_str(digit(number))
    } else {
        let mut text = decimal(number / 10);
        text.append(digit(number % 10));
        assert(text@ =~= decimal_of(number as nat));
        text
    }
}

/// A number in decimal between two pieces of text.
pub fn around(before: &str, number: u64, after: &str) -> (text: String)
    ensures
        text@ == before@ + decimal_of(number as nat) + after@,
{
    let mut text = String::from_str(before);
    let middle = decimal(number);
    text.append(middle.as_str());
    text.append(after);
    text
}

/// A number is spelt digit by digit: the last character is that of its remainder by ten, and
/// what stands before it spells the quotient. Below ten nothing does.
pub proof fn law_decimal_is_digit_by_digit(number: nat)
    ensures
        decimal_of(number).len() > 0,
        decimal_of(number).last() as int == '0' as int + number % 10,
        number < 10 ==> decimal_of(number).len() == 1,
        number >= 10 ==> decimal_of(number).drop_last() == decimal_of(number / 10),
{
    if number >= 10 {
        assert(decimal_of(number).drop_last() =~= decimal_of(number / 10));
    }
}

/// Only digits are written, and none but the number zero begins with the digit zero.
pub proof fn law_decimal_has_no_leading_zero(number: nat)
    ensures
        forall|i: int|
            0 <= i < decimal_of(number).len() ==> '0' as int <= #[trigger] decimal_of(number)[i]
                as int <= '9' as int,
        number > 0 ==> decimal_of(number)[0] != '0',
    decreases number,
{
    law_decimal_is_digit_by_digit(number);
    if number >= 10 {
        let rest = decimal_of(number / 10);
        law_decimal_is_digit_by_digit(number / 10);
        law_decimal_has_no_leading_zero(number / 10);
        assert(decimal_of(number)[0] == rest[0]);
        assert forall|i: int| 0 <= i < decimal_of(number).len() implies '0' as int
            <= #[trigger] decimal_of(number)[i] as int <= '9' as int by {
            if i < rest.len() {
                assert(decimal_of(number)[i] == rest[i]);
            }
        }
    }
}

/// No two numbers are spelt alike.
pub proof fn law_decimal_identifies_the_number(a: nat, b: nat)
    requires
        decimal_of(a) == decimal_of(b),
    ensures
        a == b,
    decreases a,
{
    law_decimal_is_digit_by_digit(a);
    law_decimal_is_digit_by_digit(b);
    if a >= 10 && b >= 10 {
        law_decimal_identifies_the_number(a / 10, b / 10);
    } else {
        law_decimal_is_digit_by_digit(a / 10);
        law_decimal_is_digit_by_digit(b / 10);
    }
}

/// Output shows its pieces one for one and in order, text as its characters and an address as
/// itself.
pub proof fn law_pieces_show_one_for_one(pieces: Seq<Piece>, i: int)
    requires
        0 <= i < pieces.len(),
    ensures
        shown(pieces).len() == pieces.len(),
        pieces[i] matches Piece::Text(text) ==> shown(pieces)[i] == PieceView::Text(text@),
        pieces[i] matches Piece::Ip(ip) ==> shown(pieces)[i] == PieceView::Ip(ip),
{
}

} // verus!
