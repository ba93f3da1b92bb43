//! A query as a sequence of pieces: fixed SQL text, and values that are
//! bound as parameters. The caller hands the pieces to its database driver
//! in order; nothing a user typed ever becomes SQL text.
use vstd::prelude::*;
use crate::net::{IpAddress, Network};

verus! {

/// A value bound as a query parameter.
#[derive(Debug, Clone, PartialEq)]
pub enum Bind {
    /// An array of small integer ids.
    Ids(Vec<i16>),
    /// An array of texts.
    Names(Vec<String>),
    Int(i32),
    Small(i16),
    Long(i64),
    /// A single address, bound as a host network.
    Ip(IpAddress),
    Net(Network),
    Text(String),
    /// An instant, in microseconds since the epoch.
    Time(i64),
}

pub enum BindView {
    Ids(Seq<i16>),
    Names(Seq<Seq<char>>),
    Int(i32),
    Small(i16),
    Long(i64),
    Ip(IpAddress),
    Net(Network),
    Text(Seq<char>),
    Time(i64),
}

pub open spec fn strs(v: Seq<String>) -> Seq<Seq<char>> {
    v.map_values(|s: String| s@)
}

impl View for Bind {
    type V = BindView;

    open spec fn view(&self) -> BindView {
        match self {
            Bind::Ids(v) => BindView::Ids(v@),
            Bind::Names(v) => BindView::Names(strs(v@)),
            Bind::Int(i) => BindView::Int(*i),
            Bind::Small(i) => BindView::Small(*i),
            Bind::Long(i) => BindView::Long(*i),
            Bind::Ip(a) => BindView::Ip(*a),
            Bind::Net(n) => BindView::Net(*n),
            Bind::Text(t) => BindView::Text(t@),
            Bind::Time(t) => BindView::Time(*t),
        }
    }
}

/// One piece of a query.
#[derive(Debug, Clone, PartialEq)]
pub enum Piece {
    Sql(&'static str),
    Arg(Bind),
}

pub enum PieceView {
    Sql(Seq<char>),
    Arg(BindView),
}

impl View for Piece {
    type V = PieceView;

    open spec fn view(&self) -> PieceView {
        match self {
            Piece::Sql(s) => PieceView::Sql(s@),
            Piece::Arg(b) => PieceView::Arg(b@),
        }
    }
}

/// A query's pieces as plain values.
pub open spec fn pieces(v: Seq<Piece>) -> Seq<PieceView> {
    v.map_values(|p: Piece| p@)
}

/// SQL text as a piece.
pub open spec fn sq(s: Seq<char>) -> PieceView {
    PieceView::Sql(s)
}

/// A bound value as a piece.
pub open spec fn bv(b: BindView) -> PieceView {
    PieceView::Arg(b)
}

/// Appends SQL text.
pub fn push_sql(q: &mut Vec<Piece>, s: &'static str)
    ensures
        pieces(final(q)@) == pieces(old(q)@).push(sq(s@)),
{
    q.push(Piece::Sql(s));
    assert(pieces(q@) =~= pieces(old(q)@).push(sq(s@)));
}

/// Appends a bound value.
pub fn push_bind(q: &mut Vec<Piece>, b: Bind)
    ensures
        pieces(final(q)@) == pieces(old(q)@).push(bv(b@)),
{
    let ghost bw = b@;
    q.push(Piece::Arg(b));
    assert(pieces(q@) =~= pieces(old(q)@).push(bv(bw)));
}

/// Appends all pieces of `more`.
pub fn push_all(q: &mut Vec<Piece>, more: Vec<Piece>)
    ensures
        pieces(final(q)@) == pieces(old(q)@) + pieces(more@),
{
    let mut more = more;
    let ghost m = more@;
    q.append(&mut more);
    assert(pieces(q@) =~= pieces(old(q)@) + pieces(m));
}

} // verus!
