//! Relocation expressions: a tree of leaves (a constant, or an index into the
//! object's sections, groups or symbols) and binary operators. On disk each node
//! is a tag byte followed by its operand, or by its two children in turn.
use vstd::prelude::*;

use crate::bytes::{le16, le32, occurs_at, lemma_occurs_bounds, lemma_occurs_concat, lemma_occurs_cons, read_u8, read_u16, read_u32, write_u8, write_u16, write_u32};
use crate::text::{hex, push_hex, push_str};

verus! {

/// A relocation expression.
#[derive(Debug, PartialEq, Eq)]
pub enum Expression {
    /// A constant value: `$123d`.
    Constant(u32),
    /// Index of a symbol's address: `[x]`.
    SymbolAddressIndex(u16),
    /// Base address of a section: `sectbase(x)`.
    SectionAddressIndex(u16),
    /// `bank(x)`; its meaning is not confirmed.
    Bank(u16),
    /// `sectof(x)`; its meaning is not confirmed.
    SectionOffset(u16),
    /// `offs(x)`; its meaning is not confirmed.
    Offset(u16),
    /// Start address of a section: `sectstart(x)`.
    SectionStart(u16),
    /// `groupstart(x)`; its meaning is not confirmed.
    GroupStart(u16),
    /// Offset of a group, `groupof(x)`; not confirmed.
    GroupOffset(u16),
    /// `seg(x)`; its meaning is not confirmed.
    Segment(u16),
    /// The `ORG` address of a group for a symbol: `grouporg(x)`.
    GroupOrg(u16),
    /// End address of a section: `sectend(x)`.
    SectionEnd(u16),
    /// `(a=b)`
    Equals(Box<Expression>, Box<Expression>),
    /// `(a<>b)`
    NotEquals(Box<Expression>, Box<Expression>),
    /// `(a<=b)`
    LTE(Box<Expression>, Box<Expression>),
    /// `(a<b)`
    LessThan(Box<Expression>, Box<Expression>),
    /// `(a>=b)`
    GTE(Box<Expression>, Box<Expression>),
    /// `(a>b)`
    GreaterThan(Box<Expression>, Box<Expression>),
    /// `(a+b)`
    Add(Box<Expression>, Box<Expression>),
    /// `(a-b)`
    Subtract(Box<Expression>, Box<Expression>),
    /// `(a*b)`
    Multiply(Box<Expression>, Box<Expression>),
    /// `(a/b)`
    Divide(Box<Expression>, Box<Expression>),
    /// bitwise and, `(a&b)`
    And(Box<Expression>, Box<Expression>),
    /// bitwise or, written `(a!b)`
    Or(Box<Expression>, Box<Expression>),
    /// `(a^b)`
    XOR(Box<Expression>, Box<Expression>),
    /// `(a<<b)`
    LeftShift(Box<Expression>, Box<Expression>),
    /// `(a>>b)`
    RightShift(Box<Expression>, Box<Expression>),
    /// modulo, written `(a%%b)`
    Mod(Box<Expression>, Box<Expression>),
    /// `(a---b)`
    Dashes(Box<Expression>, Box<Expression>),
    /// `(a-revword-b)`
    Revword(Box<Expression>, Box<Expression>),
    /// `(a-check0-b)`
    Check0(Box<Expression>, Box<Expression>),
    /// `(a-check1-b)`
    Check1(Box<Expression>, Box<Expression>),
    /// `(a-bitrange-b)`
    BitRange(Box<Expression>, Box<Expression>),
    /// `(a-arshift_chk-b)`
    ArshiftChk(Box<Expression>, Box<Expression>),
}

/// The tag byte that starts the node on disk.
pub open spec fn expr_tag(e: Expression) -> u8 {
    match e {
        Expression::Constant(_) => 0,
        Expression::SymbolAddressIndex(_) => 2,
        Expression::SectionAddressIndex(_) => 4,
        Expression::Bank(_) => 6,
        Expression::SectionOffset(_) => 8,
        Expression::Offset(_) => 10,
        Expression::SectionStart(_) => 12,
        Expression::GroupStart(_) => 14,
        Expression::GroupOffset(_) => 16,
        Expression::Segment(_) => 18,
        Expression::GroupOrg(_) => 20,
        Expression::SectionEnd(_) => 22,
        Expression::Equals(_, _) => 32,
        Expression::NotEquals(_, _) => 34,
        Expression::LTE(_, _) => 36,
        Expression::LessThan(_, _) => 38,
        Expression::GTE(_, _) => 40,
        Expression::GreaterThan(_, _) => 42,
        Expression::Add(_, _) => 44,
        Expression::Subtract(_, _) => 46,
        Expression::Multiply(_, _) => 48,
        Expression::Divide(_, _) => 50,
        Expression::And(_, _) => 52,
        Expression::Or(_, _) => 54,
        Expression::XOR(_, _) => 56,
        Expression::LeftShift(_, _) => 58,
        Expression::RightShift(_, _) => 60,
        Expression::Mod(_, _) => 62,
        Expression::Dashes(_, _) => 64,
        Expression::Revword(_, _) => 66,
        Expression::Check0(_, _) => 68,
        Expression::Check1(_, _) => 70,
        Expression::BitRange(_, _) => 72,
        Expression::ArshiftChk(_, _) => 74,
    }
}

/// Tags of the nodes that carry a 16-bit index.
pub open spec fn is_index_tag(t: u8) -> bool {
    2 <= t <= 22 && t % 2 == 0
}

/// Tags of the binary operators.
pub open spec fn is_operator_tag(t: u8) -> bool {
    32 <= t <= 74 && t % 2 == 0
}

/// The operand of an index node.
pub open spec fn index_of(e: Expression) -> u16 {
    match e {
        Expression::SymbolAddressIndex(x) => x,
        Expression::SectionAddressIndex(x) => x,
        Expression::Bank(x) => x,
        Expression::SectionOffset(x) => x,
        Expression::Offset(x) => x,
        Expression::SectionStart(x) => x,
        Expression::GroupStart(x) => x,
        Expression::GroupOffset(x) => x,
        Expression::Segment(x) => x,
        Expression::GroupOrg(x) => x,
        Expression::SectionEnd(x) => x,
        _ => 0,
    }
}

/// The left child of an operator node.
pub open spec fn left_of(e: Expression) -> Expression {
    match e {
        Expression::Equals(l, _) => *l,
        Expression::NotEquals(l, _) => *l,
        Expression::LTE(l, _) => *l,
        Expression::LessThan(l, _) => *l,
        Expression::GTE(l, _) => *l,
        Expression::GreaterThan(l, _) => *l,
        Expression::Add(l, _) => *l,
        Expression::Subtract(l, _) => *l,
        Expression::Multiply(l, _) => *l,
        Expression::Divide(l, _) => *l,
        Expression::And(l, _) => *l,
        Expression::Or(l, _) => *l,
        Expression::XOR(l, _) => *l,
        Expression::LeftShift(l, _) => *l,
        Expression::RightShift(l, _) => *l,
        Expression::Mod(l, _) => *l,
        Expression::Dashes(l, _) => *l,
        Expression::Revword(l, _) => *l,
        Expression::Check0(l, _) => *l,
        Expression::Check1(l, _) => *l,
        Expression::BitRange(l, _) => *l,
        Expression::ArshiftChk(l, _) => *l,
        _ => e,
    }
}

/// The right child of an operator node.
pub open spec fn right_of(e: Expression) -> Expression {
    match e {
        Expression::Equals(_, r) => *r,
        Expression::NotEquals(_, r) => *r,
        Expression::LTE(_, r) => *r,
        Expression::LessThan(_, r) => *r,
        Expression::GTE(_, r) => *r,
        Expression::GreaterThan(_, r) => *r,
        Expression::Add(_, r) => *r,
        Expression::Subtract(_, r) => *r,
        Expression::Multiply(_, r) => *r,
        Expression::Divide(_, r) => *r,
        Expression::And(_, r) => *r,
        Expression::Or(_, r) => *r,
        Expression::XOR(_, r) => *r,
        Expression::LeftShift(_, r) => *r,
        Expression::RightShift(_, r) => *r,
        Expression::Mod(_, r) => *r,
        Expression::Dashes(_, r) => *r,
        Expression::Revword(_, r) => *r,
        Expression::Check0(_, r) => *r,
        Expression::Check1(_, r) => *r,
        Expression::BitRange(_, r) => *r,
        Expression::ArshiftChk(_, r) => *r,
        _ => e,
    }
}

/// The bytes of `e` on disk.
pub open spec fn enc_expr(e: Expression) -> Seq<u8>
    decreases e,
{
    match e {
        Expression::Constant(v) => seq![0u8] + le32(v),
        Expression::SymbolAddressIndex(x) => seq![2u8] + le16(x),
        Expression::SectionAddressIndex(x) => seq![4u8] + le16(x),
        Expression::Bank(x) => seq![6u8] + le16(x),
        Expression::SectionOffset(x) => seq![8u8] + le16(x),
        Expression::Offset(x) => seq![10u8] + le16(x),
        Expression::SectionStart(x) => seq![12u8] + le16(x),
        Expression::GroupStart(x) => seq![14u8] + le16(x),
        Expression::GroupOffset(x) => seq![16u8] + le16(x),
        Expression::Segment(x) => seq![18u8] + le16(x),
        Expression::GroupOrg(x) => seq![20u8] + le16(x),
        Expression::SectionEnd(x) => seq![22u8] + le16(x),
        Expression::Equals(l, r) => seq![32u8] + enc_expr(*l) + enc_expr(*r),
        Expression::NotEquals(l, r) => seq![34u8] + enc_expr(*l) + enc_expr(*r),
        Expression::LTE(l, r) => seq![36u8] + enc_expr(*l) + enc_expr(*r),
        Expression::LessThan(l, r) => seq![38u8] + enc_expr(*l) + enc_expr(*r),
        Expression::GTE(l, r) => seq![40u8] + enc_expr(*l) + enc_expr(*r),
        Expression::GreaterThan(l, r) => seq![42u8] + enc_expr(*l) + enc_expr(*r),
        Expression::Add(l, r) => seq![44u8] + enc_expr(*l) + enc_expr(*r),
        Expression::Subtract(l, r) => seq![46u8] + enc_expr(*l) + enc_expr(*r),
        Expression::Multiply(l, r) => seq![48u8] + enc_expr(*l) + enc_expr(*r),
        Expression::Divide(l, r) => seq![50u8] + enc_expr(*l) + enc_expr(*r),
        Expression::And(l, r) => seq![52u8] + enc_expr(*l) + enc_expr(*r),
        Expression::Or(l, r) => seq![54u8] + enc_expr(*l) + enc_expr(*r),
        Expression::XOR(l, r) => seq![56u8] + enc_expr(*l) + enc_expr(*r),
        Expression::LeftShift(l, r) => seq![58u8] + enc_expr(*l) + enc_expr(*r),
        Expression::RightShift(l, r) => seq![60u8] + enc_expr(*l) + enc_expr(*r),
        Expression::Mod(l, r) => seq![62u8] + enc_expr(*l) + enc_expr(*r),
        Expression::Dashes(l, r) => seq![64u8] + enc_expr(*l) + enc_expr(*r),
        Expression::Revword(l, r) => seq![66u8] + enc_expr(*l) + enc_expr(*r),
        Expression::Check0(l, r) => seq![68u8] + enc_expr(*l) + enc_expr(*r),
        Expression::Check1(l, r) => seq![70u8] + enc_expr(*l) + enc_expr(*r),
        Expression::BitRange(l, r) => seq![72u8] + enc_expr(*l) + enc_expr(*r),
        Expression::ArshiftChk(l, r) => seq![74u8] + enc_expr(*l) + enc_expr(*r),
    }
}

/// The text that names an index node's function, up to its operand.
pub open spec fn index_prefix(t: u8) -> Seq<char> {
    if t == 2 {
        "["@
    } else if t == 4 {
        "sectbase("@
    } else if t == 6 {
        "bank("@
    } else if t == 8 {
        "sectof("@
    } else if t == 10 {
        "offs("@
    } else if t == 12 {
        "sectstart("@
    } else if t == 14 {
        "groupstart("@
    } else if t == 16 {
        "groupof("@
    } else if t == 18 {
        "seg("@
    } else if t == 20 {
        "grouporg("@
    } else if t == 22 {
        "sectend("@
    } else {
        ""@
    }
}

/// The text between an operator's two operands.
pub open spec fn operator_text(t: u8) -> Seq<char> {
    if t == 32 {
        "="@
    } else if t == 34 {
        "<>"@
    } else if t == 36 {
        "<="@
    } else if t == 38 {
        "<"@
    } else if t == 40 {
        ">="@
    } else if t == 42 {
        ">"@
    } else if t == 44 {
        "+"@
    } else if t == 46 {
        "-"@
    } else if t == 48 {
        "*"@
    } else if t == 50 {
        "/"@
    } else if t == 52 {
        "&"@
    } else if t == 54 {
        "!"@
    } else if t == 56 {
        "^"@
    } else if t == 58 {
        "<<"@
    } else if t == 60 {
        ">>"@
    } else if t == 62 {
        "%%"@
    } else if t == 64 {
        "---"@
    } else if t == 66 {
        "-revword-"@
    } else if t == 68 {
        "-check0-"@
    } else if t == 70 {
        "-check1-"@
    } else if t == 72 {
        "-bitrange-"@
    } else if t == 74 {
        "-arshift_chk-"@
    } else {
        ""@
    }
}

/// How `e` reads in a listing: constants and operands in hexadecimal, every
/// operator in parentheses.
pub open spec fn expr_text(e: Expression) -> Seq<char>
    decreases e,
{
    match e {
        Expression::Constant(v) => seq!['$'] + hex(v as nat),
        Expression::SymbolAddressIndex(x) => seq!['['] + hex(x as nat) + seq![']'],
        Expression::SectionAddressIndex(x) => index_prefix(4) + hex(x as nat) + seq![')'],
        Expression::Bank(x) => index_prefix(6) + hex(x as nat) + seq![')'],
        Expression::SectionOffset(x) => index_prefix(8) + hex(x as nat) + seq![')'],
        Expression::Offset(x) => index_prefix(10) + hex(x as nat) + seq![')'],
        Expression::SectionStart(x) => index_prefix(12) + hex(x as nat) + seq![')'],
        Expression::GroupStart(x) => index_prefix(14) + hex(x as nat) + seq![')'],
        Expression::GroupOffset(x) => index_prefix(16) + hex(x as nat) + seq![')'],
        Expression::Segment(x) => index_prefix(18) + hex(x as nat) + seq![')'],
        Expression::GroupOrg(x) => index_prefix(20) + hex(x as nat) + seq![')'],
        Expression::SectionEnd(x) => index_prefix(22) + hex(x as nat) + seq![')'],
        Expression::Equals(l, r) => seq!['('] + expr_text(*l) + operator_text(32) + expr_text(*r) + seq![')'],
        Expression::NotEquals(l, r) => seq!['('] + expr_text(*l) + operator_text(34) + expr_text(*r) + seq![')'],
        Expression::LTE(l, r) => seq!['('] + expr_text(*l) + operator_text(36) + expr_text(*r) + seq![')'],
        Expression::LessThan(l, r) => seq!['('] + expr_text(*l) + operator_text(38) + expr_text(*r) + seq![')'],
        Expression::GTE(l, r) => seq!['('] + expr_text(*l) + operator_text(40) + expr_text(*r) + seq![')'],
        Expression::GreaterThan(l, r) => seq!['('] + expr_text(*l) + operator_text(42) + expr_text(*r) + seq![')'],
        Expression::Add(l, r) => seq!['('] + expr_text(*l) + operator_text(44) + expr_text(*r) + seq![')'],
        Expression::Subtract(l, r) => seq!['('] + expr_text(*l) + operator_text(46) + expr_text(*r) + seq![')'],
        Expression::Multiply(l, r) => seq!['('] + expr_text(*l) + operator_text(48) + expr_text(*r) + seq![')'],
        Expression::Divide(l, r) => seq!['('] + expr_text(*l) + operator_text(50) + expr_text(*r) + seq![')'],
        Expression::And(l, r) => seq!['('] + expr_text(*l) + operator_text(52) + expr_text(*r) + seq![')'],
        Expression::Or(l, r) => seq!['('] + expr_text(*l) + operator_text(54) + expr_text(*r) + seq![')'],
        Expression::XOR(l, r) => seq!['('] + expr_text(*l) + operator_text(56) + expr_text(*r) + seq![')'],
        Expression::LeftShift(l, r) => seq!['('] + expr_text(*l) + operator_text(58) + expr_text(*r) + seq![')'],
        Expression::RightShift(l, r) => seq!['('] + expr_text(*l) + operator_text(60) + expr_text(*r) + seq![')'],
        Expression::Mod(l, r) => seq!['('] + expr_text(*l) + operator_text(62) + expr_text(*r) + seq![')'],
        Expression::Dashes(l, r) => seq!['('] + expr_text(*l) + operator_text(64) + expr_text(*r) + seq![')'],
        Expression::Revword(l, r) => seq!['('] + expr_text(*l) + operator_text(66) + expr_text(*r) + seq![')'],
        Expression::Check0(l, r) => seq!['('] + expr_text(*l) + operator_text(68) + expr_text(*r) + seq![')'],
        Expression::Check1(l, r) => seq!['('] + expr_text(*l) + operator_text(70) + expr_text(*r) + seq![')'],
        Expression::BitRange(l, r) => seq!['('] + expr_text(*l) + operator_text(72) + expr_text(*r) + seq![')'],
        Expression::ArshiftChk(l, r) => seq!['('] + expr_text(*l) + operator_text(74) + expr_text(*r) + seq![')'],
    }
}

proof fn lemma_expr_shape(e: Expression)
    ensures
        is_index_tag(expr_tag(e)) ==> enc_expr(e) == seq![expr_tag(e)] + le16(index_of(e)) && e
            == index_node(expr_tag(e), index_of(e)),
        is_operator_tag(expr_tag(e)) ==> enc_expr(e) == seq![expr_tag(e)] + enc_expr(left_of(e))
            + enc_expr(right_of(e)) && e == operator_node(expr_tag(e), left_of(e), right_of(e)),
        expr_tag(e) == 0 <==> e is Constant,
        e matches Expression::Constant(v) ==> enc_expr(e) == seq![0u8] + le32(v),
        expr_tag(e) == 0 || is_index_tag(expr_tag(e)) || is_operator_tag(expr_tag(e)),
        enc_expr(e).len() >= 1 && enc_expr(e)[0] == expr_tag(e),
{
}

/// The index node with tag `t`.
pub open spec fn index_node(t: u8, x: u16) -> Expression {
    if t == 2 {
        Expression::SymbolAddressIndex(x)
    } else if t == 4 {
        Expression::SectionAddressIndex(x)
    } else if t == 6 {
        Expression::Bank(x)
    } else if t == 8 {
        Expression::SectionOffset(x)
    } else if t == 10 {
        Expression::Offset(x)
    } else if t == 12 {
        Expression::SectionStart(x)
    } else if t == 14 {
        Expression::GroupStart(x)
    } else if t == 16 {
        Expression::GroupOffset(x)
    } else if t == 18 {
        Expression::Segment(x)
    } else if t == 20 {
        Expression::GroupOrg(x)
    } else if t == 22 {
        Expression::SectionEnd(x)
    } else {
        Expression::Constant(0)
    }
}

/// The operator node with tag `t`.
pub open spec fn operator_node(t: u8, l: Expression, r: Expression) -> Expression {
    if t == 32 {
        Expression::Equals(Box::new(l), Box::new(r))
    } else if t == 34 {
        Expression::NotEquals(Box::new(l), Box::new(r))
    } else if t == 36 {
        Expression::LTE(Box::new(l), Box::new(r))
    } else if t == 38 {
        Expression::LessThan(Box::new(l), Box::new(r))
    } else if t == 40 {
        Expression::GTE(Box::new(l), Box::new(r))
    } else if t == 42 {
        Expression::GreaterThan(Box::new(l), Box::new(r))
    } else if t == 44 {
        Expression::Add(Box::new(l), Box::new(r))
    } else if t == 46 {
        Expression::Subtract(Box::new(l), Box::new(r))
    } else if t == 48 {
        Expression::Multiply(Box::new(l), Box::new(r))
    } else if t == 50 {
        Expression::Divide(Box::new(l), Box::new(r))
    } else if t == 52 {
        Expression::And(Box::new(l), Box::new(r))
    } else if t == 54 {
        Expression::Or(Box::new(l), Box::new(r))
    } else if t == 56 {
        Expression::XOR(Box::new(l), Box::new(r))
    } else if t == 58 {
        Expression::LeftShift(Box::new(l), Box::new(r))
    } else if t == 60 {
        Expression::RightShift(Box::new(l), Box::new(r))
    } else if t == 62 {
        Expression::Mod(Box::new(l), Box::new(r))
    } else if t == 64 {
        Expression::Dashes(Box::new(l), Box::new(r))
    } else if t == 66 {
        Expression::Revword(Box::new(l), Box::new(r))
    } else if t == 68 {
        Expression::Check0(Box::new(l), Box::new(r))
    } else if t == 70 {
        Expression::Check1(Box::new(l), Box::new(r))
    } else if t == 72 {
        Expression::BitRange(Box::new(l), Box::new(r))
    } else if t == 74 {
        Expression::ArshiftChk(Box::new(l), Box::new(r))
    } else {
        Expression::Constant(0)
    }
}

fn make_index(t: u8, x: u16) -> (e: Expression)
    requires
        is_index_tag(t),
    ensures
        e == index_node(t, x),
        expr_tag(e) == t,
{
    if t == 2 {
        Expression::SymbolAddressIndex(x)
    } else if t == 4 {
        Expression::SectionAddressIndex(x)
    } else if t == 6 {
        Expression::Bank(x)
    } else if t == 8 {
        Expression::SectionOffset(x)
    } else if t == 10 {
        Expression::Offset(x)
    } else if t == 12 {
        Expression::SectionStart(x)
    } else if t == 14 {
        Expression::GroupStart(x)
    } else if t == 16 {
        Expression::GroupOffset(x)
    } else if t == 18 {
        Expression::Segment(x)
    } else if t == 20 {
        Expression::GroupOrg(x)
    } else if t == 22 {
        Expression::SectionEnd(x)
    } else {
        Expression::SectionEnd(x)
    }
}

fn make_operator(t: u8, l: Expression, r: Expression) -> (e: Expression)
    requires
        is_operator_tag(t),
    ensures
        e == operator_node(t, l, r),
        expr_tag(e) == t,
{
    if t == 32 {
        Expression::Equals(Box::new(l), Box::new(r))
    } else if t == 34 {
        Expression::NotEquals(Box::new(l), Box::new(r))
    } else if t == 36 {
        Expression::LTE(Box::new(l), Box::new(r))
    } else if t == 38 {
        Expression::LessThan(Box::new(l), Box::new(r))
    } else if t == 40 {
        Expression::GTE(Box::new(l), Box::new(r))
    } else if t == 42 {
        Expression::GreaterThan(Box::new(l), Box::new(r))
    } else if t == 44 {
        Expression::Add(Box::new(l), Box::new(r))
    } else if t == 46 {
        Expression::Subtract(Box::new(l), Box::new(r))
    } else if t == 48 {
        Expression::Multiply(Box::new(l), Box::new(r))
    } else if t == 50 {
        Expression::Divide(Box::new(l), Box::new(r))
    } else if t == 52 {
        Expression::And(Box::new(l), Box::new(r))
    } else if t == 54 {
        Expression::Or(Box::new(l), Box::new(r))
    } else if t == 56 {
        Expression::XOR(Box::new(l), Box::new(r))
    } else if t == 58 {
        Expression::LeftShift(Box::new(l), Box::new(r))
    } else if t == 60 {
        Expression::RightShift(Box::new(l), Box::new(r))
    } else if t == 62 {
        Expression::Mod(Box::new(l), Box::new(r))
    } else if t == 64 {
        Expression::Dashes(Box::new(l), Box::new(r))
    } else if t == 66 {
        Expression::Revword(Box::new(l), Box::new(r))
    } else if t == 68 {
        Expression::Check0(Box::new(l), Box::new(r))
    } else if t == 70 {
        Expression::Check1(Box::new(l), Box::new(r))
    } else if t == 72 {
        Expression::BitRange(Box::new(l), Box::new(r))
    } else if t == 74 {
        Expression::ArshiftChk(Box::new(l), Box::new(r))
    } else {
        Expression::ArshiftChk(Box::new(l), Box::new(r))
    }
}

fn index_prefix_str(t: u8) -> (s: &'static str)
    ensures
        s@ == index_prefix(t),
{
    if t == 2 {
        "["
    } else if t == 4 {
        "sectbase("
    } else if t == 6 {
        "bank("
    } else if t == 8 {
        "sectof("
    } else if t == 10 {
        "offs("
    } else if t == 12 {
        "sectstart("
    } else if t == 14 {
        "groupstart("
    } else if t == 16 {
        "groupof("
    } else if t == 18 {
        "seg("
    } else if t == 20 {
        "grouporg("
    } else if t == 22 {
        "sectend("
    } else {
        ""
    }
}

fn operator_str(t: u8) -> (s: &'static str)
    ensures
        s@ == operator_text(t),
{
    if t == 32 {
        "="
    } else if t == 34 {
        "<>"
    } else if t == 36 {
        "<="
    } else if t == 38 {
        "<"
    } else if t == 40 {
        ">="
    } else if t == 42 {
        ">"
    } else if t == 44 {
        "+"
    } else if t == 46 {
        "-"
    } else if t == 48 {
        "*"
    } else if t == 50 {
        "/"
    } else if t == 52 {
        "&"
    } else if t == 54 {
        "!"
    } else if t == 56 {
        "^"
    } else if t == 58 {
        "<<"
    } else if t == 60 {
        ">>"
    } else if t == 62 {
        "%%"
    } else if t == 64 {
        "---"
    } else if t == 66 {
        "-revword-"
    } else if t == 68 {
        "-check0-"
    } else if t == 70 {
        "-check1-"
    } else if t == 72 {
        "-bitrange-"
    } else if t == 74 {
        "-arshift_chk-"
    } else {
        ""
    }
}

impl Expression {
    /// The tag byte that starts this node on disk.
    pub fn tag(&self) -> (t: u8)
        ensures
            t == expr_tag(*self),
    {
        match self {
            Expression::Constant(_) => 0,
            Expression::SymbolAddressIndex(_) => 2,
            Expression::SectionAddressIndex(_) => 4,
            Expression::Bank(_) => 6,
            Expression::SectionOffset(_) => 8,
            Expression::Offset(_) => 10,
            Expression::SectionStart(_) => 12,
            Expression::GroupStart(_) => 14,
            Expression::GroupOffset(_) => 16,
            Expression::Segment(_) => 18,
            Expression::GroupOrg(_) => 20,
            Expression::SectionEnd(_) => 22,
            Expression::Equals(_, _) => 32,
            Expression::NotEquals(_, _) => 34,
            Expression::LTE(_, _) => 36,
            Expression::LessThan(_, _) => 38,
            Expression::GTE(_, _) => 40,
            Expression::GreaterThan(_, _) => 42,
            Expression::Add(_, _) => 44,
            Expression::Subtract(_, _) => 46,
            Expression::Multiply(_, _) => 48,
            Expression::Divide(_, _) => 50,
            Expression::And(_, _) => 52,
            Expression::Or(_, _) => 54,
            Expression::XOR(_, _) => 56,
            Expression::LeftShift(_, _) => 58,
            Expression::RightShift(_, _) => 60,
            Expression::Mod(_, _) => 62,
            Expression::Dashes(_, _) => 64,
            Expression::Revword(_, _) => 66,
            Expression::Check0(_, _) => 68,
            Expression::Check1(_, _) => 70,
            Expression::BitRange(_, _) => 72,
            Expression::ArshiftChk(_, _) => 74,
        }
    }

    /// The two children of an operator node.
    pub fn operands(&self) -> (r: Option<(&Expression, &Expression)>)
        ensures
            r is Some <==> is_operator_tag(expr_tag(*self)),
            r matches Some((l, q)) ==> *l == left_of(*self) && *q == right_of(*self),
    {
        match self {
            Expression::Equals(l, r) => Some((&**l, &**r)),
            Expression::NotEquals(l, r) => Some((&**l, &**r)),
            Expression::LTE(l, r) => Some((&**l, &**r)),
            Expression::LessThan(l, r) => Some((&**l, &**r)),
            Expression::GTE(l, r) => Some((&**l, &**r)),
            Expression::GreaterThan(l, r) => Some((&**l, &**r)),
            Expression::Add(l, r) => Some((&**l, &**r)),
            Expression::Subtract(l, r) => Some((&**l, &**r)),
            Expression::Multiply(l, r) => Some((&**l, &**r)),
            Expression::Divide(l, r) => Some((&**l, &**r)),
            Expression::And(l, r) => Some((&**l, &**r)),
            Expression::Or(l, r) => Some((&**l, &**r)),
            Expression::XOR(l, r) => Some((&**l, &**r)),
            Expression::LeftShift(l, r) => Some((&**l, &**r)),
            Expression::RightShift(l, r) => Some((&**l, &**r)),
            Expression::Mod(l, r) => Some((&**l, &**r)),
            Expression::Dashes(l, r) => Some((&**l, &**r)),
            Expression::Revword(l, r) => Some((&**l, &**r)),
            Expression::Check0(l, r) => Some((&**l, &**r)),
            Expression::Check1(l, r) => Some((&**l, &**r)),
            Expression::BitRange(l, r) => Some((&**l, &**r)),
            Expression::ArshiftChk(l, r) => Some((&**l, &**r)),
            _ => None,
        }
    }

    /// The operand of an index node.
    pub fn index(&self) -> (r: Option<u16>)
        ensures
            is_index_tag(expr_tag(*self)) ==> r == Some(index_of(*self)),
            !is_index_tag(expr_tag(*self)) ==> r is None,
    {
        match self {
            Expression::SymbolAddressIndex(x) => Some(*x),
            Expression::SectionAddressIndex(x) => Some(*x),
            Expression::Bank(x) => Some(*x),
            Expression::SectionOffset(x) => Some(*x),
            Expression::Offset(x) => Some(*x),
            Expression::SectionStart(x) => Some(*x),
            Expression::GroupStart(x) => Some(*x),
            Expression::GroupOffset(x) => Some(*x),
            Expression::Segment(x) => Some(*x),
            Expression::GroupOrg(x) => Some(*x),
            Expression::SectionEnd(x) => Some(*x),
            _ => None,
        }
    }
}

impl Clone for Expression {
    fn clone(&self) -> (r: Self)
        ensures
            r == *self,
        decreases self,
    {
        match self {
            Expression::Constant(v) => Expression::Constant(*v),
            Expression::SymbolAddressIndex(x) => Expression::SymbolAddressIndex(*x),
            Expression::SectionAddressIndex(x) => Expression::SectionAddressIndex(*x),
            Expression::Bank(x) => Expression::Bank(*x),
            Expression::SectionOffset(x) => Expression::SectionOffset(*x),
            Expression::Offset(x) => Expression::Offset(*x),
            Expression::SectionStart(x) => Expression::SectionStart(*x),
            Expression::GroupStart(x) => Expression::GroupStart(*x),
            Expression::GroupOffset(x) => Expression::GroupOffset(*x),
            Expression::Segment(x) => Expression::Segment(*x),
            Expression::GroupOrg(x) => Expression::GroupOrg(*x),
            Expression::SectionEnd(x) => Expression::SectionEnd(*x),
            Expression::Equals(l, r) => Expression::Equals(Box::new((**l).clone()), Box::new((**r).clone())),
            Expression::NotEquals(l, r) => Expression::NotEquals(Box::new((**l).clone()), Box::new((**r).clone())),
            Expression::LTE(l, r) => Expression::LTE(Box::new((**l).clone()), Box::new((**r).clone())),
            Expression::LessThan(l, r) => Expression::LessThan(Box::new((**l).clone()), Box::new((**r).clone())),
            Expression::GTE(l, r) => Expression::GTE(Box::new((**l).clone()), Box::new((**r).clone())),
            Expression::GreaterThan(l, r) => Expression::GreaterThan(Box::new((**l).clone()), Box::new((**r).clone())),
            Expression::Add(l, r) => Expression::Add(Box::new((**l).clone()), Box::new((**r).clone())),
            Expression::Subtract(l, r) => Expression::Subtract(Box::new((**l).clone()), Box::new((**r).clone())),
            Expression::Multiply(l, r) => Expression::Multiply(Box::new((**l).clone()), Box::new((**r).clone())),
            Expression::Divide(l, r) => Expression::Divide(Box::new((**l).clone()), Box::new((**r).clone())),
            Expression::And(l, r) => Expression::And(Box::new((**l).clone()), Box::new((**r).clone())),
            Expression::Or(l, r) => Expression::Or(Box::new((**l).clone()), Box::new((**r).clone())),
            Expression::XOR(l, r) => Expression::XOR(Box::new((**l).clone()), Box::new((**r).clone())),
            Expression::LeftShift(l, r) => Expression::LeftShift(Box::new((**l).clone()), Box::new((**r).clone())),
            Expression::RightShift(l, r) => Expression::RightShift(Box::new((**l).clone()), Box::new((**r).clone())),
            Expression::Mod(l, r) => Expression::Mod(Box::new((**l).clone()), Box::new((**r).clone())),
            Expression::Dashes(l, r) => Expression::Dashes(Box::new((**l).clone()), Box::new((**r).clone())),
            Expression::Revword(l, r) => Expression::Revword(Box::new((**l).clone()), Box::new((**r).clone())),
            Expression::Check0(l, r) => Expression::Check0(Box::new((**l).clone()), Box::new((**r).clone())),
            Expression::Check1(l, r) => Expression::Check1(Box::new((**l).clone()), Box::new((**r).clone())),
            Expression::BitRange(l, r) => Expression::BitRange(Box::new((**l).clone()), Box::new((**r).clone())),
            Expression::ArshiftChk(l, r) => Expression::ArshiftChk(Box::new((**l).clone()), Box::new((**r).clone())),
        }
    }
}

/// Appends the bytes of `e`.
pub fn encode_expression(e: &Expression, out: &mut Vec<u8>)
    ensures
        final(out)@ == old(out)@ + enc_expr(*e),
    decreases e,
{
    let ghost start = out@;
    match e {
        Expression::Constant(v) => {
            write_u8(out, 0);
            write_u32(out, *v);
        },
        Expression::SymbolAddressIndex(x) => {
            write_u8(out, 2);
            write_u16(out, *x);
        },
        Expression::SectionAddressIndex(x) => {
            write_u8(out, 4);
            write_u16(out, *x);
        },
        Expression::Bank(x) => {
            write_u8(out, 6);
            write_u16(out, *x);
        },
        Expression::SectionOffset(x) => {
            write_u8(out, 8);
            write_u16(out, *x);
        },
        Expression::Offset(x) => {
            write_u8(out, 10);
            write_u16(out, *x);
        },
        Expression::SectionStart(x) => {
            write_u8(out, 12);
            write_u16(out, *x);
        },
        Expression::GroupStart(x) => {
            write_u8(out, 14);
            write_u16(out, *x);
        },
        Expression::GroupOffset(x) => {
            write_u8(out, 16);
            write_u16(out, *x);
        },
        Expression::Segment(x) => {
            write_u8(out, 18);
            write_u16(out, *x);
        },
        Expression::GroupOrg(x) => {
            write_u8(out, 20);
            write_u16(out, *x);
        },
        Expression::SectionEnd(x) => {
            write_u8(out, 22);
            write_u16(out, *x);
        },
        Expression::Equals(l, r) => {
            write_u8(out, 32);
            encode_expression(l, out);
            encode_expression(r, out);
        },
        Expression::NotEquals(l, r) => {
            write_u8(out, 34);
            encode_expression(l, out);
            encode_expression(r, out);
        },
        Expression::LTE(l, r) => {
            write_u8(out, 36);
            encode_expression(l, out);
            encode_expression(r, out);
        },
        Expression::LessThan(l, r) => {
            write_u8(out, 38);
            encode_expression(l, out);
            encode_expression(r, out);
        },
        Expression::GTE(l, r) => {
            write_u8(out, 40);
            encode_expression(l, out);
            encode_expression(r, out);
        },
        Expression::GreaterThan(l, r) => {
            write_u8(out, 42);
            encode_expression(l, out);
            encode_expression(r, out);
        },
        Expression::Add(l, r) => {
            write_u8(out, 44);
            encode_expression(l, out);
            encode_expression(r, out);
        },
        Expression::Subtract(l, r) => {
            write_u8(out, 46);
            encode_expression(l, out);
            encode_expression(r, out);
        },
        Expression::Multiply(l, r) => {
            write_u8(out, 48);
            encode_expression(l, out);
            encode_expression(r, out);
        },
        Expression::Divide(l, r) => {
            write_u8(out, 50);
            encode_expression(l, out);
            encode_expression(r, out);
        },
        Expression::And(l, r) => {
            write_u8(out, 52);
            encode_expression(l, out);
            encode_expression(r, out);
        },
        Expression::Or(l, r) => {
            write_u8(out, 54);
            encode_expression(l, out);
            encode_expression(r, out);
        },
        Expression::XOR(l, r) => {
            write_u8(out, 56);
            encode_expression(l, out);
            encode_expression(r, out);
        },
        Expression::LeftShift(l, r) => {
            write_u8(out, 58);
            encode_expression(l, out);
            encode_expression(r, out);
        },
        Expression::RightShift(l, r) => {
            write_u8(out, 60);
            encode_expression(l, out);
            encode_expression(r, out);
        },
        Expression::Mod(l, r) => {
            write_u8(out, 62);
            encode_expression(l, out);
            encode_expression(r, out);
        },
        Expression::Dashes(l, r) => {
            write_u8(out, 64);
            encode_expression(l, out);
            encode_expression(r, out);
        },
        Expression::Revword(l, r) => {
            write_u8(out, 66);
            encode_expression(l, out);
            encode_expression(r, out);
        },
        Expression::Check0(l, r) => {
            write_u8(out, 68);
            encode_expression(l, out);
            encode_expression(r, out);
        },
        Expression::Check1(l, r) => {
            write_u8(out, 70);
            encode_expression(l, out);
            encode_expression(r, out);
        },
        Expression::BitRange(l, r) => {
            write_u8(out, 72);
            encode_expression(l, out);
            encode_expression(r, out);
        },
        Expression::ArshiftChk(l, r) => {
            write_u8(out, 74);
            encode_expression(l, out);
            encode_expression(r, out);
        },
    }
    assert(out@ =~= start + enc_expr(*e));
}

/// Appends the text of a node that has no children.
fn render_leaf(e: &Expression, out: &mut Vec<char>)
    requires
        !is_operator_tag(expr_tag(*e)),
    ensures
        final(out)@ == old(out)@ + expr_text(*e),
{
    let ghost start = out@;
    match e {
        Expression::Constant(v) => {
            out.push('$');
            push_hex(out, *v as u64);
            assert(out@ =~= start + expr_text(*e));
        },
        Expression::SymbolAddressIndex(x) => {
            out.push('[');
            push_hex(out, *x as u64);
            out.push(']');
            assert(out@ =~= start + expr_text(*e));
        },
        Expression::SectionAddressIndex(x) => {
            push_str(out, index_prefix_str(4));
            push_hex(out, *x as u64);
            out.push(')');
            assert(out@ =~= start + expr_text(*e));
        },
        Expression::Bank(x) => {
            push_str(out, index_prefix_str(6));
            push_hex(out, *x as u64);
            out.push(')');
            assert(out@ =~= start + expr_text(*e));
        },
        Expression::SectionOffset(x) => {
            push_str(out, index_prefix_str(8));
            push_hex(out, *x as u64);
            out.push(')');
            assert(out@ =~= start + expr_text(*e));
        },
        Expression::Offset(x) => {
            push_str(out, index_prefix_str(10));
            push_hex(out, *x as u64);
            out.push(')');
            assert(out@ =~= start + expr_text(*e));
        },
        Expression::SectionStart(x) => {
            push_str(out, index_prefix_str(12));
            push_hex(out, *x as u64);
            out.push(')');
            assert(out@ =~= start + expr_text(*e));
        },
        Expression::GroupStart(x) => {
            push_str(out, index_prefix_str(14));
            push_hex(out, *x as u64);
            out.push(')');
            assert(out@ =~= start + expr_text(*e));
        },
        Expression::GroupOffset(x) => {
            push_str(out, index_prefix_str(16));
            push_hex(out, *x as u64);
            out.push(')');
            assert(out@ =~= start + expr_text(*e));
        },
        Expression::Segment(x) => {
            push_str(out, index_prefix_str(18));
            push_hex(out, *x as u64);
            out.push(')');
            assert(out@ =~= start + expr_text(*e));
        },
        Expression::GroupOrg(x) => {
            push_str(out, index_prefix_str(20));
            push_hex(out, *x as u64);
            out.push(')');
            assert(out@ =~= start + expr_text(*e));
        },
        Expression::SectionEnd(x) => {
            push_str(out, index_prefix_str(22));
            push_hex(out, *x as u64);
            out.push(')');
            assert(out@ =~= start + expr_text(*e));
        },
        _ => {},
    }
}

/// Appends the text of `e` as a listing shows it.
#[verifier::rlimit(100)]
pub fn render_expression(e: &Expression, out: &mut Vec<char>)
    ensures
        final(out)@ == old(out)@ + expr_text(*e),
    decreases e,
{
    let ghost start = out@;
    match e {
        Expression::Equals(l, r) => {
            out.push('(');
            render_expression(l, out);
            push_str(out, operator_str(32));
            render_expression(r, out);
            out.push(')');
            assert(out@ =~= start + expr_text(*e));
        },
        Expression::NotEquals(l, r) => {
            out.push('(');
            render_expression(l, out);
            push_str(out, operator_str(34));
            render_expression(r, out);
            out.push(')');
            assert(out@ =~= start + expr_text(*e));
        },
        Expression::LTE(l, r) => {
            out.push('(');
            render_expression(l, out);
            push_str(out, operator_str(36));
            render_expression(r, out);
            out.push(')');
            assert(out@ =~= start + expr_text(*e));
        },
        Expression::LessThan(l, r) => {
            out.push('(');
            render_expression(l, out);
            push_str(out, operator_str(38));
            render_expression(r, out);
            out.push(')');
            assert(out@ =~= start + expr_text(*e));
        },
        Expression::GTE(l, r) => {
            out.push('(');
            render_expression(l, out);
            push_str(out, operator_str(40));
            render_expression(r, out);
            out.push(')');
            assert(out@ =~= start + expr_text(*e));
        },
        Expression::GreaterThan(l, r) => {
            out.push('(');
            render_expression(l, out);
            push_str(out, operator_str(42));
            render_expression(r, out);
            out.push(')');
            assert(out@ =~= start + expr_text(*e));
        },
        Expression::Add(l, r) => {
            out.push('(');
            render_expression(l, out);
            push_str(out, operator_str(44));
            render_expression(r, out);
            out.push(')');
            assert(out@ =~= start + expr_text(*e));
        },
        Expression::Subtract(l, r) => {
            out.push('(');
            render_expression(l, out);
            push_str(out, operator_str(46));
            render_expression(r, out);
            out.push(')');
            assert(out@ =~= start + expr_text(*e));
        },
        Expression::Multiply(l, r) => {
            out.push('(');
            render_expression(l, out);
            push_str(out, operator_str(48));
            render_expression(r, out);
            out.push(')');
            assert(out@ =~= start + expr_text(*e));
        },
        Expression::Divide(l, r) => {
            out.push('(');
            render_expression(l, out);
            push_str(out, operator_str(50));
            render_expression(r, out);
            out.push(')');
            assert(out@ =~= start + expr_text(*e));
        },
        Expression::And(l, r) => {
            out.push('(');
            render_expression(l, out);
            push_str(out, operator_str(52));
            render_expression(r, out);
            out.push(')');
            assert(out@ =~= start + expr_text(*e));
        },
        Expression::Or(l, r) => {
            out.push('(');
            render_expression(l, out);
            push_str(out, operator_str(54));
            render_expression(r, out);
            out.push(')');
            assert(out@ =~= start + expr_text(*e));
        },
        Expression::XOR(l, r) => {
            out.push('(');
            render_expression(l, out);
            push_str(out, operator_str(56));
            render_expression(r, out);
            out.push(')');
            assert(out@ =~= start + expr_text(*e));
        },
        Expression::LeftShift(l, r) => {
            out.push('(');
            render_expression(l, out);
            push_str(out, operator_str(58));
            render_expression(r, out);
            out.push(')');
            assert(out@ =~= start + expr_text(*e));
        },
        Expression::RightShift(l, r) => {
            out.push('(');
            render_expression(l, out);
            push_str(out, operator_str(60));
            render_expression(r, out);
            out.push(')');
            assert(out@ =~= start + expr_text(*e));
        },
        Expression::Mod(l, r) => {
            out.push('(');
            render_expression(l, out);
            push_str(out, operator_str(62));
            render_expression(r, out);
            out.push(')');
            assert(out@ =~= start + expr_text(*e));
        },
        Expression::Dashes(l, r) => {
            out.push('(');
            render_expression(l, out);
            push_str(out, operator_str(64));
            render_expression(r, out);
            out.push(')');
            assert(out@ =~= start + expr_text(*e));
        },
        Expression::Revword(l, r) => {
            out.push('(');
            render_expression(l, out);
            push_str(out, operator_str(66));
            render_expression(r, out);
            out.push(')');
            assert(out@ =~= start + expr_text(*e));
        },
        Expression::Check0(l, r) => {
            out.push('(');
            render_expression(l, out);
            push_str(out, operator_str(68));
            render_expression(r, out);
            out.push(')');
            assert(out@ =~= start + expr_text(*e));
        },
        Expression::Check1(l, r) => {
            out.push('(');
            render_expression(l, out);
            push_str(out, operator_str(70));
            render_expression(r, out);
            out.push(')');
            assert(out@ =~= start + expr_text(*e));
        },
        Expression::BitRange(l, r) => {
            out.push('(');
            render_expression(l, out);
            push_str(out, operator_str(72));
            render_expression(r, out);
            out.push(')');
            assert(out@ =~= start + expr_text(*e));
        },
        Expression::ArshiftChk(l, r) => {
            out.push('(');
            render_expression(l, out);
            push_str(out, operator_str(74));
            render_expression(r, out);
            out.push(')');
            assert(out@ =~= start + expr_text(*e));
        },
        _ => render_leaf(e, out),
    }
}

/// Reads the expression that starts at `pos`: the one whose bytes stand there,
/// or `None` where no expression's bytes do.
pub fn decode_expression(b: &[u8], pos: usize) -> (r: Option<(Expression, usize)>)
    ensures
        r matches Some((e, n)) ==> n == pos + enc_expr(e).len() && occurs_at(
            enc_expr(e),
            b@,
            pos as int,
        ),
        forall|e: Expression|
            #[trigger] occurs_at(enc_expr(e), b@, pos as int) ==> r == Some(
                (e, (pos + enc_expr(e).len()) as usize),
            ),
    decreases b@.len() - pos,
{
    let total = b.len();
    let t = match read_u8(b, pos) {
        Some(t) => t,
        None => {
            proof {
                assert forall|e: Expression| #[trigger] occurs_at(enc_expr(e), b@, pos as int) implies false by {
                    lemma_expr_shape(e);
                    lemma_occurs_bounds(enc_expr(e), b@, pos as int);
                }
            }
            return None;
        },
    };
    proof {
        assert forall|e: Expression| #[trigger] occurs_at(enc_expr(e), b@, pos as int) implies expr_tag(e)
            == t && occurs_at(enc_expr(e).subrange(1, enc_expr(e).len() as int), b@, pos + 1) by {
            lemma_expr_shape(e);
            let rest = enc_expr(e).subrange(1, enc_expr(e).len() as int);
            assert(enc_expr(e) =~= seq![expr_tag(e)] + rest);
            lemma_occurs_cons(expr_tag(e), rest, b@, pos as int);
        }
    }
    if t == 0 {
        match read_u32(b, pos + 1) {
            Some(v) => {
                let e = Expression::Constant(v);
                proof {
                    lemma_occurs_cons(0, le32(v), b@, pos as int);
                    assert forall|x: Expression| #[trigger] occurs_at(enc_expr(x), b@, pos as int) implies x
                        == e by {
                        lemma_expr_shape(x);
                        let rest = enc_expr(x).subrange(1, enc_expr(x).len() as int);
                        assert(rest =~= le32(x->Constant_0));
                    }
                }
                Some((e, pos + 5))
            },
            None => {
                proof {
                    assert forall|x: Expression| #[trigger] occurs_at(enc_expr(x), b@, pos as int) implies false by {
                        lemma_expr_shape(x);
                        let rest = enc_expr(x).subrange(1, enc_expr(x).len() as int);
                        assert(rest =~= le32(x->Constant_0));
                    }
                }
                None
            },
        }
    } else if 2 <= t && t <= 22 && t % 2 == 0 {
        match read_u16(b, pos + 1) {
            Some(v) => {
                let e = make_index(t, v);
                proof {
                    lemma_expr_shape(e);
                    lemma_occurs_cons(t, le16(v), b@, pos as int);
                    assert forall|x: Expression| #[trigger] occurs_at(enc_expr(x), b@, pos as int) implies x
                        == e by {
                        lemma_expr_shape(x);
                        let rest = enc_expr(x).subrange(1, enc_expr(x).len() as int);
                        assert(rest =~= le16(index_of(x)));
                    }
                }
                Some((e, pos + 3))
            },
            None => {
                proof {
                    assert forall|x: Expression| #[trigger] occurs_at(enc_expr(x), b@, pos as int) implies false by {
                        lemma_expr_shape(x);
                        let rest = enc_expr(x).subrange(1, enc_expr(x).len() as int);
                        assert(rest =~= le16(index_of(x)));
                    }
                }
                None
            },
        }
    } else if 32 <= t && t <= 74 && t % 2 == 0 {
        proof {
            assert forall|x: Expression| #[trigger] occurs_at(enc_expr(x), b@, pos as int) implies occurs_at(
                enc_expr(left_of(x)),
                b@,
                pos + 1,
            ) && occurs_at(
                enc_expr(right_of(x)),
                b@,
                pos + 1 + enc_expr(left_of(x)).len(),
            ) by {
                lemma_expr_shape(x);
                let rest = enc_expr(x).subrange(1, enc_expr(x).len() as int);
                assert(rest =~= enc_expr(left_of(x)) + enc_expr(right_of(x)));
                lemma_occurs_concat(enc_expr(left_of(x)), enc_expr(right_of(x)), b@, pos + 1);
            }
        }
        let (l, n1) = match decode_expression(b, pos + 1) {
            Some(p) => p,
            None => {
                return None;
            },
        };
        proof {
            lemma_expr_shape(l);
            lemma_occurs_bounds(enc_expr(l), b@, pos + 1);
        }
        let (q, n2) = match decode_expression(b, n1) {
            Some(p) => p,
            None => {
                return None;
            },
        };
        proof {
            lemma_expr_shape(q);
        }
        let e = make_operator(t, l, q);
        proof {
            lemma_expr_shape(e);
            lemma_occurs_concat(enc_expr(l), enc_expr(q), b@, pos + 1);
            lemma_occurs_cons(t, enc_expr(l) + enc_expr(q), b@, pos as int);
            assert(enc_expr(e) =~= seq![t] + (enc_expr(l) + enc_expr(q)));
            assert forall|x: Expression| #[trigger] occurs_at(enc_expr(x), b@, pos as int) implies x
                == e by {
                lemma_expr_shape(x);
            }
        }
        Some((e, n2))
    } else {
        proof {
            assert forall|x: Expression| #[trigger] occurs_at(enc_expr(x), b@, pos as int) implies false by {
                lemma_expr_shape(x);
            }
        }
        None
    }
}

} // verus!
