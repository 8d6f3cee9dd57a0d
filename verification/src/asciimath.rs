//! Translating a parsed expression tree into layout nodes.
//!
//! The parser is an outside collaborator; this module works on a tree of
//! plain values mirroring what the translation reads from it. Each
//! `visit_` function turns one shape of that tree into a layout node,
//! deciding on the way whether a group's own brackets are suppressed,
//! replacing symbol tokens by their display glyphs, treating a missing
//! slot as no node, and refusing the constructs the renderer does not
//! support. The relation each function is proved to satisfy pins down the
//! whole translation, including exactly which inputs produce which error.

use vstd::prelude::*;

use crate::brackets::{spec_bracket_width, BracketType};
use crate::graphemes::graphemes_of;
use crate::renderer::{
    all_wf, node_height, node_wf, Div, Expr, Group, Literal, Matrix, Node, Root, ScriptExpr, Sqrt,
    Stack,
};
use crate::text_canvas::row_text;

verus! {

/// The shapes the parser can hand over for one simple element.
pub enum Simple {
    Missing,
    Number(String),
    Text(String),
    Ident(String),
    Operator(String),
    Symbol(String),
    Sign(String),
    Signed { sign: String, operand: Box<Simple> },
    Unary { op: String, arg: Box<Simple> },
    Func { func: String, arg: Box<Simple> },
    Binary { op: String, first: Box<Simple>, second: Box<Simple> },
    Group { left_bracket: String, expr: Expression, right_bracket: String },
    Matrix { left_bracket: String, cells: Vec<Expression>, num_cols: usize, right_bracket: String },
}

/// The scripts attached to a simple element.
pub enum Script {
    NoScript,
    Sub(Box<Simple>),
    Super(Box<Simple>),
    Subsuper(Box<Simple>, Box<Simple>),
}

/// A simple element with its scripts.
pub struct SimpleScript {
    pub simple: Simple,
    pub script: Script,
}

/// A named function with scripts applied to one argument.
pub struct FuncCall {
    pub func: String,
    pub script: Script,
    pub arg: Box<ScriptFunc>,
}

/// A sign prefixing a scripted element.
pub struct SignedScript {
    pub sign: String,
    pub operand: Box<ScriptFunc>,
}

/// A scripted element, a function application, or a signed one of either.
pub enum ScriptFunc {
    Simple(SimpleScript),
    Func(FuncCall),
    Signed(SignedScript),
}

/// A fraction written with a slash.
pub struct Frac {
    pub numer: Box<ScriptFunc>,
    pub denom: Box<ScriptFunc>,
}

/// One element of an expression sequence. Whitespace typed between two
/// neighboring elements is kept by the parser but paints nothing.
pub enum Intermediate {
    ScriptFunc(ScriptFunc),
    Frac(Frac),
    Space(String),
}

/// A sequence of elements laid out side by side.
pub struct Expression {
    pub items: Vec<Intermediate>,
}

/// Why a tree cannot be rendered.
#[derive(Clone, Copy, Debug, PartialEq, Eq, Structural)]
pub enum RenderError {
    /// A recognized but unimplemented operator was encountered.
    UnsupportedConstruct,
    /// A matrix's cell count is not a positive multiple of its column count.
    MalformedMatrix,
}

impl RenderError {
    /// A short description of the failure.
    pub fn message(&self) -> (r: &'static str)
        ensures
            *self == RenderError::UnsupportedConstruct ==> r@ == "unsupported construct"@,
            *self == RenderError::MalformedMatrix ==> r@ == "malformed matrix"@,
    {
        match self {
            RenderError::UnsupportedConstruct => "unsupported construct",
            RenderError::MalformedMatrix => "malformed matrix",
        }
    }
}

/// Whether two pieces of text hold the same characters.
fn str_eq(a: &str, b: &str) -> (r: bool)
    ensures
        r == (a@ == b@),
{
    let s1 = a.to_owned();
    let s2 = b.to_owned();
    s1 == s2
}

/// The symbol table: an ordered list of token-to-glyph entries. A lookup
/// returns the first matching entry's glyph, or the token itself when no
/// entry matches.
pub struct SymbolTable {
    pub entries: Vec<(String, String)>,
}

/// What `spec_lookup` walks: the entries as character sequences.
pub open spec fn table_entries(t: SymbolTable) -> Seq<(Seq<char>, Seq<char>)> {
    t.entries@.map_values(|p: (String, String)| (p.0@, p.1@))
}

/// The glyph for a token: the first matching entry's value, else the
/// token itself.
pub open spec fn spec_lookup(es: Seq<(Seq<char>, Seq<char>)>, token: Seq<char>) -> Seq<char>
    decreases es.len(),
{
    if es.len() == 0 {
        token
    } else if es[0].0 == token {
        es[0].1
    } else {
        spec_lookup(es.drop_first(), token)
    }
}

proof fn lemma_lookup_skip(es: Seq<(Seq<char>, Seq<char>)>, token: Seq<char>, i: int)
    requires
        0 <= i <= es.len(),
        forall|j: int| 0 <= j < i ==> (#[trigger] es[j]).0 != token,
    ensures
        spec_lookup(es, token) == spec_lookup(es.skip(i), token),
    decreases i,
{
    if i > 0 {
        lemma_lookup_skip(es, token, i - 1);
        assert(es.skip(i - 1).drop_first() =~= es.skip(i));
        assert(es.skip(i - 1)[0] == es[i - 1]);
    } else {
        assert(es.skip(0) =~= es);
    }
}

impl SymbolTable {
    /// A table with no entries: every lookup passes its token through.
    pub fn new() -> (r: SymbolTable)
        ensures
            table_entries(r) == Seq::<(Seq<char>, Seq<char>)>::empty(),
    {
        let r = SymbolTable { entries: Vec::new() };
        proof {
            assert(table_entries(r) =~= Seq::<(Seq<char>, Seq<char>)>::empty());
        }
        r
    }

    /// Append one token-to-glyph entry.
    pub fn insert(&mut self, token: &str, glyph: &str)
        ensures
            table_entries(*final(self)) == table_entries(*old(self)).push((token@, glyph@)),
    {
        let ghost before = table_entries(*self);
        self.entries.push((token.to_owned(), glyph.to_owned()));
        proof {
            assert(table_entries(*self) =~= before.push((token@, glyph@)));
        }
    }

    /// The glyph for `token`: the first matching entry's value, else the
    /// token unchanged.
    pub fn lookup(&self, token: &str) -> (r: String)
        ensures
            r@ == spec_lookup(table_entries(*self), token@),
    {
        let ghost es = table_entries(*self);
        for i in 0..self.entries.len()
            invariant
                es == table_entries(*self),
                forall|j: int| 0 <= j < i ==> (#[trigger] es[j]).0 != token@,
        {
            if str_eq(self.entries[i].0.as_str(), token) {
                proof {
                    lemma_lookup_skip(es, token@, i as int);
                    assert(es.skip(i as int)[0] == es[i as int]);
                }
                return self.entries[i].1.clone();
            }
        }
        proof {
            lemma_lookup_skip(es, token@, es.len() as int);
            assert(es.skip(es.len() as int) =~= Seq::<(Seq<char>, Seq<char>)>::empty());
        }
        token.to_owned()
    }
}

/// The bracket kind a bracket token stands for. The invisible grouping
/// tokens, and anything unrecognized, carry no bracket.
pub open spec fn spec_bracket_type(t: Seq<char>) -> BracketType {
    if t == "("@ {
        BracketType::LeftRound
    } else if t == ")"@ {
        BracketType::RightRound
    } else if t == "["@ {
        BracketType::LeftSquare
    } else if t == "]"@ {
        BracketType::RightSquare
    } else if t == "{"@ {
        BracketType::LeftCurly
    } else if t == "}"@ {
        BracketType::RightCurly
    } else if t == "<<"@ || t == "(:"@ {
        BracketType::LeftAngled
    } else if t == ">>"@ || t == ":)"@ {
        BracketType::RightAngled
    } else if t == "|"@ {
        BracketType::Vertical
    } else {
        BracketType::NoBracket
    }
}

pub fn bracket_type(bracket: &str) -> (r: BracketType)
    ensures
        r == spec_bracket_type(bracket@),
{
    if str_eq(bracket, "(") {
        BracketType::LeftRound
    } else if str_eq(bracket, ")") {
        BracketType::RightRound
    } else if str_eq(bracket, "[") {
        BracketType::LeftSquare
    } else if str_eq(bracket, "]") {
        BracketType::RightSquare
    } else if str_eq(bracket, "{") {
        BracketType::LeftCurly
    } else if str_eq(bracket, "}") {
        BracketType::RightCurly
    } else if str_eq(bracket, "<<") || str_eq(bracket, "(:") {
        BracketType::LeftAngled
    } else if str_eq(bracket, ">>") || str_eq(bracket, ":)") {
        BracketType::RightAngled
    } else if str_eq(bracket, "|") {
        BracketType::Vertical
    } else {
        BracketType::NoBracket
    }
}


/// Whether a simple element translates to no node at all: a missing slot,
/// or a simple function application, which the renderer does not lay out.
pub open spec fn yields_none(s: Simple) -> bool {
    s is Missing || s is Func
}

/// Whether a scripted element or function yields no node.
pub open spec fn script_func_yields_none(sf: ScriptFunc) -> bool {
    match sf {
        ScriptFunc::Simple(ss) => yields_none(ss.simple),
        ScriptFunc::Func(_) => false,
        ScriptFunc::Signed(_) => false,
    }
}

/// Whether one element of an expression sequence yields no node.
pub open spec fn intermediate_yields_none(it: Intermediate) -> bool {
    match it {
        Intermediate::ScriptFunc(sf) => script_func_yields_none(sf),
        Intermediate::Frac(_) => false,
        Intermediate::Space(_) => true,
    }
}

/// Whether every element of a sequence yields no node.
pub open spec fn items_all_none(items: Seq<Intermediate>) -> bool
    decreases items,
{
    if items.len() == 0 {
        true
    } else {
        items_all_none(items.drop_last()) && intermediate_yields_none(items.last())
    }
}

/// Whether a whole expression yields no node.
pub open spec fn expression_yields_none(e: Expression) -> bool {
    items_all_none(e.items@)
}

/// The earlier of two possible failures.
pub open spec fn first_err(a: Option<RenderError>, b: Option<RenderError>) -> Option<RenderError> {
    match a {
        Option::Some(e) => Option::Some(e),
        Option::None => b,
    }
}

/// The first failure translating a simple element hits, in the order the
/// translation walks the tree, or nothing when it succeeds.
pub open spec fn simple_err(s: Simple) -> Option<RenderError>
    decreases s,
{
    match s {
        Simple::Signed { operand, .. } => simple_err(*operand),
        Simple::Unary { op, arg } => if op@ != "sqrt"@ {
            Option::Some(RenderError::UnsupportedConstruct)
        } else {
            simple_err(*arg)
        },
        Simple::Binary { op, first, second } => if op@ != "frac"@ && op@ != "stackrel"@ && op@
            != "root"@ {
            Option::Some(RenderError::UnsupportedConstruct)
        } else {
            first_err(simple_err(*first), simple_err(*second))
        },
        Simple::Group { expr, .. } => expression_err(expr),
        Simple::Matrix { left_bracket, cells, num_cols, right_bracket } => {
            let lb = spec_bracket_type(left_bracket@);
            let rb = spec_bracket_type(right_bracket@);
            if lb is LeftAngled || lb is RightAngled || rb is LeftAngled || rb is RightAngled {
                Option::Some(RenderError::UnsupportedConstruct)
            } else if num_cols == 0 || cells@.len() == 0 || cells@.len() as int % (
            num_cols as int) != 0 {
                Option::Some(RenderError::MalformedMatrix)
            } else {
                cells_err(cells@)
            }
        },
        _ => Option::None,
    }
}

/// The first failure among a sequence of matrix cells.
pub open spec fn cells_err(cs: Seq<Expression>) -> Option<RenderError>
    decreases cs,
{
    if cs.len() == 0 {
        Option::None
    } else {
        first_err(expression_err(cs[0]), cells_err(cs.drop_first()))
    }
}

/// The first failure among the scripts of an element.
pub open spec fn script_err(sc: Script) -> Option<RenderError>
    decreases sc,
{
    match sc {
        Script::NoScript => Option::None,
        Script::Sub(a) => simple_err(*a),
        Script::Super(a) => simple_err(*a),
        Script::Subsuper(a, b) => first_err(simple_err(*a), simple_err(*b)),
    }
}

/// The first failure translating a scripted element: its base first; when
/// the base yields no node, its scripts are never visited.
pub open spec fn simple_script_err(ss: SimpleScript) -> Option<RenderError>
    decreases ss,
{
    match simple_err(ss.simple) {
        Option::Some(e) => Option::Some(e),
        Option::None => if yields_none(ss.simple) {
            Option::None
        } else {
            script_err(ss.script)
        },
    }
}

/// The first failure translating a function: its argument first, then its
/// scripts.
pub open spec fn func_err(f: FuncCall) -> Option<RenderError>
    decreases f,
{
    first_err(script_func_err(*f.arg), script_err(f.script))
}

pub open spec fn script_func_err(sf: ScriptFunc) -> Option<RenderError>
    decreases sf,
{
    match sf {
        ScriptFunc::Simple(ss) => simple_script_err(ss),
        ScriptFunc::Func(f) => func_err(f),
        ScriptFunc::Signed(sg) => script_func_err(*sg.operand),
    }
}

pub open spec fn frac_err(fr: Frac) -> Option<RenderError>
    decreases fr,
{
    first_err(script_func_err(*fr.numer), script_func_err(*fr.denom))
}

pub open spec fn intermediate_err(it: Intermediate) -> Option<RenderError>
    decreases it,
{
    match it {
        Intermediate::ScriptFunc(sf) => script_func_err(sf),
        Intermediate::Frac(fr) => frac_err(fr),
        Intermediate::Space(_) => Option::None,
    }
}

pub open spec fn items_err(items: Seq<Intermediate>) -> Option<RenderError>
    decreases items,
{
    if items.len() == 0 {
        Option::None
    } else {
        first_err(intermediate_err(items[0]), items_err(items.drop_first()))
    }
}

pub open spec fn expression_err(e: Expression) -> Option<RenderError>
    decreases e,
{
    items_err(e.items@)
}

/// The node is a literal whose cells are the displayed units of `t`.
pub open spec fn literal_node_of(n: Node, t: Seq<char>) -> bool {
    match n {
        Node::Literal(l) => {
            &&& l.value@.map_values(|x: String| x@) == graphemes_of(t)
            &&& row_text(l.value@.map_values(|x: String| x@)) == t
            &&& forall|i: int| 0 <= i < l.value@.len() ==> 1 <= (#[trigger] l.value@[i])@.len()
        },
        _ => false,
    }
}

pub open spec fn opt_literal(no: Option<Node>, t: Seq<char>) -> bool {
    match no {
        Option::Some(n) => literal_node_of(n, t),
        Option::None => false,
    }
}

/// The node an operand slot receives: the operand's own translation, or a
/// blank literal when the slot yields no node.
pub open spec fn is_operand_node(s: Simple, tbl: Seq<(Seq<char>, Seq<char>)>, omit: bool, n: Node) -> bool
    decreases s, 1int,
{
    if yields_none(s) {
        literal_node_of(n, Seq::<char>::empty())
    } else {
        is_simple_ok(s, tbl, omit, Option::Some(n))
    }
}

/// The successful translation of one simple element.
pub open spec fn is_simple_ok(s: Simple, tbl: Seq<(Seq<char>, Seq<char>)>, omit: bool, no: Option<Node>) -> bool
    decreases s, 0int,
{
    match s {
        Simple::Missing => no is None,
        Simple::Number(t) => opt_literal(no, t@),
        Simple::Text(t) => opt_literal(no, t@),
        Simple::Ident(t) => opt_literal(no, t@),
        Simple::Operator(t) => opt_literal(no, t@),
        Simple::Sign(t) => opt_literal(no, t@),
        Simple::Symbol(t) => opt_literal(no, spec_lookup(tbl, t@)),
        Simple::Signed { sign, operand } => match no {
            Option::Some(Node::Expr(ex)) => {
                &&& ex.exprs@.len() == 2
                &&& literal_node_of(*ex.exprs@[0], sign@)
                &&& is_operand_node(*operand, tbl, true, *ex.exprs@[1])
            },
            _ => false,
        },
        Simple::Unary { op, arg } => match no {
            Option::Some(Node::Sqrt(sq)) => is_operand_node(*arg, tbl, true, *sq.expr),
            _ => false,
        },
        Simple::Func { .. } => no is None,
        Simple::Binary { op, first, second } => if op@ == "frac"@ {
            match no {
                Option::Some(Node::Div(d)) => is_operand_node(*first, tbl, true, *d.expr1)
                    && is_operand_node(*second, tbl, true, *d.expr2),
                _ => false,
            }
        } else if op@ == "stackrel"@ {
            match no {
                Option::Some(Node::Stack(st)) => is_operand_node(*first, tbl, true, *st.expr1)
                    && is_operand_node(*second, tbl, true, *st.expr2),
                _ => false,
            }
        } else {
            match no {
                Option::Some(Node::Root(rt)) => is_operand_node(*first, tbl, true, *rt.index)
                    && is_operand_node(*second, tbl, true, *rt.radicand),
                _ => false,
            }
        },
        Simple::Group { left_bracket, expr, right_bracket } => match no {
            Option::Some(Node::Group(g)) => {
                &&& g.left_bracket == (if omit {
                    BracketType::NoBracket
                } else {
                    spec_bracket_type(left_bracket@)
                })
                &&& g.right_bracket == (if omit {
                    BracketType::NoBracket
                } else {
                    spec_bracket_type(right_bracket@)
                })
                &&& match g.expr {
                    Option::Some(b) => is_expression_ok(expr, tbl, Option::Some(*b)),
                    Option::None => is_expression_ok(expr, tbl, Option::None),
                }
            },
            _ => false,
        },
        Simple::Matrix { left_bracket, cells, num_cols, right_bracket } => match no {
            Option::Some(Node::Matrix(m)) => {
                &&& m.left_bracket == spec_bracket_type(left_bracket@)
                &&& m.right_bracket == spec_bracket_type(right_bracket@)
                &&& m.num_colls == num_cols
                &&& is_cells_ok(cells@, tbl, m.exprs@)
            },
            _ => false,
        },
    }
}

/// The successful translation of a sequence of matrix cells, one node per
/// cell, a blank literal standing for a cell that yields no node.
pub open spec fn is_cells_ok(cs: Seq<Expression>, tbl: Seq<(Seq<char>, Seq<char>)>, nodes: Seq<Box<Node>>) -> bool
    decreases cs, 0int,
{
    if cs.len() != nodes.len() {
        false
    } else if cs.len() == 0 {
        true
    } else {
        is_cells_ok(cs.drop_last(), tbl, nodes.drop_last()) && is_cell_node(
            cs.last(),
            tbl,
            *nodes.last(),
        )
    }
}

pub open spec fn is_cell_node(e: Expression, tbl: Seq<(Seq<char>, Seq<char>)>, n: Node) -> bool
    decreases e, 1int,
{
    if expression_yields_none(e) {
        literal_node_of(n, Seq::<char>::empty())
    } else {
        is_expression_ok(e, tbl, Option::Some(n))
    }
}

/// The successful translation of an expression sequence: no node when
/// every element yields none, else a row of the elements' nodes in order.
pub open spec fn is_expression_ok(e: Expression, tbl: Seq<(Seq<char>, Seq<char>)>, no: Option<Node>) -> bool
    decreases e, 0int,
{
    match no {
        Option::None => is_items_ok(e.items@, tbl, Seq::<Box<Node>>::empty()),
        Option::Some(n) => match n {
            Node::Expr(ex) => ex.exprs@.len() >= 1 && is_items_ok(e.items@, tbl, ex.exprs@),
            _ => false,
        },
    }
}

pub open spec fn is_items_ok(items: Seq<Intermediate>, tbl: Seq<(Seq<char>, Seq<char>)>, nodes: Seq<Box<Node>>) -> bool
    decreases items, 0int,
{
    if items.len() == 0 {
        nodes.len() == 0
    } else if intermediate_yields_none(items.last()) {
        is_items_ok(items.drop_last(), tbl, nodes)
    } else {
        &&& nodes.len() >= 1
        &&& is_items_ok(items.drop_last(), tbl, nodes.drop_last())
        &&& is_intermediate_ok(items.last(), tbl, *nodes.last())
    }
}

pub open spec fn is_intermediate_ok(it: Intermediate, tbl: Seq<(Seq<char>, Seq<char>)>, n: Node) -> bool
    decreases it, 0int,
{
    match it {
        Intermediate::ScriptFunc(sf) => is_script_func_ok(sf, tbl, false, Option::Some(n)),
        Intermediate::Frac(fr) => is_fraction_ok(fr, tbl, n),
        Intermediate::Space(_) => false,
    }
}

pub open spec fn is_script_func_ok(sf: ScriptFunc, tbl: Seq<(Seq<char>, Seq<char>)>, omit: bool, no: Option<Node>) -> bool
    decreases sf, 0int,
{
    match sf {
        ScriptFunc::Simple(ss) => is_simple_script_ok(ss, tbl, omit, no),
        ScriptFunc::Func(f) => match no {
            Option::Some(n) => is_func_ok(f, tbl, n),
            Option::None => false,
        },
        ScriptFunc::Signed(sg) => match no {
            Option::Some(Node::Expr(ex)) => {
                &&& ex.exprs@.len() == 2
                &&& literal_node_of(*ex.exprs@[0], sg.sign@)
                &&& is_sf_operand(*sg.operand, tbl, omit, *ex.exprs@[1])
            },
            _ => false,
        },
    }
}

/// The successful translation of a scripted element: the base's node, or
/// the base wrapped in a script node carrying the translated scripts.
pub open spec fn is_simple_script_ok(ss: SimpleScript, tbl: Seq<(Seq<char>, Seq<char>)>, omit: bool, no: Option<Node>) -> bool
    decreases ss, 0int,
{
    if yields_none(ss.simple) {
        no is None
    } else {
        match ss.script {
            Script::NoScript => is_simple_ok(ss.simple, tbl, omit, no),
            Script::Sub(sb) => match no {
                Option::Some(Node::ScriptExpr(se)) => {
                    &&& is_simple_ok(ss.simple, tbl, omit, Option::Some(*se.expr))
                    &&& se.sup_expr is None
                    &&& match se.sub_expr {
                        Option::Some(b) => is_operand_node(*sb, tbl, true, *b),
                        Option::None => false,
                    }
                },
                _ => false,
            },
            Script::Super(sp) => match no {
                Option::Some(Node::ScriptExpr(se)) => {
                    &&& is_simple_ok(ss.simple, tbl, omit, Option::Some(*se.expr))
                    &&& se.sub_expr is None
                    &&& match se.sup_expr {
                        Option::Some(b) => is_operand_node(*sp, tbl, true, *b),
                        Option::None => false,
                    }
                },
                _ => false,
            },
            Script::Subsuper(sb, sp) => match no {
                Option::Some(Node::ScriptExpr(se)) => {
                    &&& is_simple_ok(ss.simple, tbl, omit, Option::Some(*se.expr))
                    &&& match se.sub_expr {
                        Option::Some(b) => is_operand_node(*sb, tbl, true, *b),
                        Option::None => false,
                    }
                    &&& match se.sup_expr {
                        Option::Some(b) => is_operand_node(*sp, tbl, true, *b),
                        Option::None => false,
                    }
                },
                _ => false,
            },
        }
    }
}

/// The head of a translated function: its name as a literal, scripted
/// when the function carries scripts.
pub open spec fn is_func_head_ok(f: FuncCall, tbl: Seq<(Seq<char>, Seq<char>)>, n: Node) -> bool
    decreases f, 0int,
{
    match f.script {
        Script::NoScript => literal_node_of(n, f.func@),
        Script::Sub(sb) => match n {
            Node::ScriptExpr(se) => {
                &&& literal_node_of(*se.expr, f.func@)
                &&& se.sup_expr is None
                &&& match se.sub_expr {
                    Option::Some(b) => is_operand_node(*sb, tbl, true, *b),
                    Option::None => false,
                }
            },
            _ => false,
        },
        Script::Super(sp) => match n {
            Node::ScriptExpr(se) => {
                &&& literal_node_of(*se.expr, f.func@)
                &&& se.sub_expr is None
                &&& match se.sup_expr {
                    Option::Some(b) => is_operand_node(*sp, tbl, true, *b),
                    Option::None => false,
                }
            },
            _ => false,
        },
        Script::Subsuper(sb, sp) => match n {
            Node::ScriptExpr(se) => {
                &&& literal_node_of(*se.expr, f.func@)
                &&& match se.sub_expr {
                    Option::Some(b) => is_operand_node(*sb, tbl, false, *b),
                    Option::None => false,
                }
                &&& match se.sup_expr {
                    Option::Some(b) => is_operand_node(*sp, tbl, false, *b),
                    Option::None => false,
                }
            },
            _ => false,
        },
    }
}

/// The node a scripted-or-function operand slot receives.
pub open spec fn is_sf_operand(sf: ScriptFunc, tbl: Seq<(Seq<char>, Seq<char>)>, omit: bool, n: Node) -> bool
    decreases sf, 2int,
{
    if script_func_yields_none(sf) {
        literal_node_of(n, Seq::<char>::empty())
    } else {
        is_script_func_ok(sf, tbl, omit, Option::Some(n))
    }
}

/// The successful translation of a function: a row of its head and its
/// argument.
pub open spec fn is_func_ok(f: FuncCall, tbl: Seq<(Seq<char>, Seq<char>)>, n: Node) -> bool
    decreases f, 1int,
{
    match n {
        Node::Expr(ex) => {
            &&& ex.exprs@.len() == 2
            &&& is_func_head_ok(f, tbl, *ex.exprs@[0])
            &&& is_sf_operand(*f.arg, tbl, false, *ex.exprs@[1])
        },
        _ => false,
    }
}

/// The successful translation of a fraction: numerator over denominator,
/// each with its own brackets suppressed.
pub open spec fn is_fraction_ok(fr: Frac, tbl: Seq<(Seq<char>, Seq<char>)>, n: Node) -> bool
    decreases fr, 0int,
{
    match n {
        Node::Div(d) => is_sf_operand(*fr.numer, tbl, true, *d.expr1) && is_sf_operand(
            *fr.denom,
            tbl,
            true,
            *d.expr2,
        ),
        _ => false,
    }
}

/// A translation result with its boxes removed, for stating contracts.
pub open spec fn unbox_result(r: Result<Option<Box<Node>>, RenderError>) -> Result<
    Option<Node>,
    RenderError,
> {
    match r {
        Result::Ok(Option::Some(b)) => Result::Ok(Option::Some(*b)),
        Result::Ok(Option::None) => Result::Ok(Option::None),
        Result::Err(e) => Result::Err(e),
    }
}

/// What `visit_simple` returns: the first failure the walk hits, else the
/// successful translation.
pub open spec fn is_simple_translation(s: Simple, tbl: Seq<(Seq<char>, Seq<char>)>, omit: bool, r: Result<Option<Node>, RenderError>) -> bool {
    match simple_err(s) {
        Option::Some(e) => r == Result::<Option<Node>, RenderError>::Err(e),
        Option::None => match r {
            Result::Ok(no) => is_simple_ok(s, tbl, omit, no),
            Result::Err(_) => false,
        },
    }
}

pub open spec fn is_simple_script_translation(ss: SimpleScript, tbl: Seq<(Seq<char>, Seq<char>)>, omit: bool, r: Result<Option<Node>, RenderError>) -> bool {
    match simple_script_err(ss) {
        Option::Some(e) => r == Result::<Option<Node>, RenderError>::Err(e),
        Option::None => match r {
            Result::Ok(no) => is_simple_script_ok(ss, tbl, omit, no),
            Result::Err(_) => false,
        },
    }
}

pub open spec fn is_func_translation(f: FuncCall, tbl: Seq<(Seq<char>, Seq<char>)>, r: Result<Option<Node>, RenderError>) -> bool {
    match func_err(f) {
        Option::Some(e) => r == Result::<Option<Node>, RenderError>::Err(e),
        Option::None => match r {
            Result::Ok(Option::Some(n)) => is_func_ok(f, tbl, n),
            _ => false,
        },
    }
}

pub open spec fn is_script_func_translation(sf: ScriptFunc, tbl: Seq<(Seq<char>, Seq<char>)>, omit: bool, r: Result<Option<Node>, RenderError>) -> bool {
    match script_func_err(sf) {
        Option::Some(e) => r == Result::<Option<Node>, RenderError>::Err(e),
        Option::None => match r {
            Result::Ok(no) => is_script_func_ok(sf, tbl, omit, no),
            Result::Err(_) => false,
        },
    }
}

pub open spec fn is_fraction_translation(fr: Frac, tbl: Seq<(Seq<char>, Seq<char>)>, r: Result<Option<Node>, RenderError>) -> bool {
    match frac_err(fr) {
        Option::Some(e) => r == Result::<Option<Node>, RenderError>::Err(e),
        Option::None => match r {
            Result::Ok(Option::Some(n)) => is_fraction_ok(fr, tbl, n),
            _ => false,
        },
    }
}

pub open spec fn is_expression_translation(e: Expression, tbl: Seq<(Seq<char>, Seq<char>)>, r: Result<Option<Node>, RenderError>) -> bool {
    match expression_err(e) {
        Option::Some(err) => r == Result::<Option<Node>, RenderError>::Err(err),
        Option::None => match r {
            Result::Ok(no) => is_expression_ok(e, tbl, no),
            Result::Err(_) => false,
        },
    }
}


proof fn lemma_items_err_skip(items: Seq<Intermediate>, i: int)
    requires
        0 <= i <= items.len(),
        forall|j: int| 0 <= j < i ==> intermediate_err(#[trigger] items[j]) is None,
    ensures
        items_err(items) == items_err(items.skip(i)),
    decreases i,
{
    if i > 0 {
        lemma_items_err_skip(items, i - 1);
        assert(items.skip(i - 1).drop_first() =~= items.skip(i));
        assert(items.skip(i - 1)[0] == items[i - 1]);
    } else {
        assert(items.skip(0) =~= items);
    }
}

proof fn lemma_cells_err_skip(cs: Seq<Expression>, i: int)
    requires
        0 <= i <= cs.len(),
        forall|j: int| 0 <= j < i ==> expression_err(#[trigger] cs[j]) is None,
    ensures
        cells_err(cs) == cells_err(cs.skip(i)),
    decreases i,
{
    if i > 0 {
        lemma_cells_err_skip(cs, i - 1);
        assert(cs.skip(i - 1).drop_first() =~= cs.skip(i));
        assert(cs.skip(i - 1)[0] == cs[i - 1]);
    } else {
        assert(cs.skip(0) =~= cs);
    }
}

/// A sequence whose nodes are all well formed, one by one, is well formed
/// after one more such node.
proof fn lemma_all_wf_push(s: Seq<Box<Node>>, x: Box<Node>)
    requires
        all_wf(s),
        node_wf(*x),
    ensures
        all_wf(s.push(x)),
{
    assert(s.push(x).subrange(0, s.push(x).len() - 1) =~= s);
    assert(s.push(x)[s.push(x).len() - 1] == x);
}

/// A row whose elements all yield nothing translates to no nodes at all.
proof fn lemma_items_ok_empty(items: Seq<Intermediate>, tbl: Seq<(Seq<char>, Seq<char>)>)
    requires
        is_items_ok(items, tbl, Seq::<Box<Node>>::empty()),
    ensures
        items_all_none(items),
    decreases items.len(),
{
    if items.len() > 0 {
        if intermediate_yields_none(items.last()) {
            lemma_items_ok_empty(items.drop_last(), tbl);
        }
    }
}

/// A row that translated to at least one node has an element that yields
/// a node.
proof fn lemma_items_ok_nonempty(
    items: Seq<Intermediate>,
    tbl: Seq<(Seq<char>, Seq<char>)>,
    nodes: Seq<Box<Node>>,
)
    requires
        is_items_ok(items, tbl, nodes),
        nodes.len() >= 1,
    ensures
        !items_all_none(items),
    decreases items.len(),
{
    if items.len() > 0 {
        if intermediate_yields_none(items.last()) {
            lemma_items_ok_nonempty(items.drop_last(), tbl, nodes);
        }
    }
}

/// A successful base translation with no node comes only from a base that
/// yields none.
proof fn lemma_ok_none_yields(s: Simple, tbl: Seq<(Seq<char>, Seq<char>)>, omit: bool)
    requires
        is_simple_ok(s, tbl, omit, Option::<Node>::None),
    ensures
        yields_none(s),
{
}

/// A successful base translation with a node comes only from a base that
/// yields one.
proof fn lemma_ok_some_not_yields(s: Simple, tbl: Seq<(Seq<char>, Seq<char>)>, omit: bool, n: Node)
    requires
        is_simple_ok(s, tbl, omit, Option::Some(n)),
    ensures
        !yields_none(s),
{
}

/// A scripted element that translated to no node has a base yielding none.
proof fn lemma_sf_ok_none(sf: ScriptFunc, tbl: Seq<(Seq<char>, Seq<char>)>, omit: bool)
    requires
        is_script_func_ok(sf, tbl, omit, Option::<Node>::None),
    ensures
        script_func_yields_none(sf),
{
    match sf {
        ScriptFunc::Simple(ss) => {
            if !yields_none(ss.simple) {
                match ss.script {
                    Script::NoScript => {
                        lemma_ok_none_yields(ss.simple, tbl, omit);
                    },
                    _ => {},
                }
            }
        },
        ScriptFunc::Func(_) => {},
        ScriptFunc::Signed(_) => {},
    }
}

/// A scripted element that translated to a node has a base yielding one.
proof fn lemma_sf_ok_some(sf: ScriptFunc, tbl: Seq<(Seq<char>, Seq<char>)>, omit: bool, n: Node)
    requires
        is_script_func_ok(sf, tbl, omit, Option::Some(n)),
    ensures
        !script_func_yields_none(sf),
{
}

/// The structural conditions a translated matrix meets make it well
/// formed: its cells are one row of text or taller, so the whole matrix
/// is, and its brackets fit in one column.
proof fn lemma_translated_matrix_wf(m: Matrix)
    requires
        all_wf(m.exprs@),
        forall|i: int|
            0 <= i < m.exprs@.len() ==> 1 <= node_height(*#[trigger] m.exprs@[i]),
        1 <= m.num_colls,
        1 <= m.exprs@.len(),
        m.exprs@.len() as int % (m.num_colls as int) == 0,
        !(m.left_bracket is LeftAngled),
        !(m.left_bracket is RightAngled),
        !(m.right_bracket is LeftAngled),
        !(m.right_bracket is RightAngled),
    ensures
        node_wf(Node::Matrix(m)),
{
    let n = Node::Matrix(m);
    let s = m.exprs@;
    let ds = crate::renderer::dims_of(s);
    let ncols = m.num_colls as int;
    let nrows = s.len() as int / ncols;
    crate::renderer::lemma_matrix_nrows(s.len() as int, ncols);
    crate::renderer::lemma_dims_of_index(s, 0);
    assert(0int * ncols + 0 == 0) by (nonlinear_arith);
    crate::renderer::lemma_row_h_bound(ds, ncols, 0, 0, ncols);
    assert(crate::renderer::rows_total(ds, ncols, 1) == crate::renderer::rows_total(ds, ncols, 0)
        + crate::renderer::row_h(ds, ncols, 0, ncols));
    crate::renderer::lemma_rows_total_mono(ds, ncols, 1, nrows);
    assert(1 <= node_height(n));
    assert(spec_bracket_width(m.left_bracket, node_height(n)) <= 1);
    assert(spec_bracket_width(m.right_bracket, node_height(n)) <= 1);
}

/// A literal holding no text: what a missing operand slot renders as.
fn blank_literal() -> (r: Box<Node>)
    ensures
        literal_node_of(*r, Seq::<char>::empty()),
        node_wf(*r),
        node_height(*r) == 1,
{
    proof {
        reveal_strlit("");
        assert(""@ =~= Seq::<char>::empty());
    }
    Box::new(Node::Literal(Literal::new("")))
}

/// Translate one simple element. `omit_braces` suppresses the brackets of
/// a group used as a bare operand.
#[verifier::rlimit(100)]
pub fn visit_simple(simple: &Simple, table: &SymbolTable, omit_braces: bool) -> (r: Result<
    Option<Box<Node>>,
    RenderError,
>)
    ensures
        is_simple_translation(*simple, table_entries(*table), omit_braces, unbox_result(r)),
        r matches Ok(Some(n)) ==> node_wf(*n) && 1 <= node_height(*n),
    decreases *simple,
{
    let ghost tbl = table_entries(*table);
    match simple {
        Simple::Missing => Ok(None),
        Simple::Number(number) => Ok(Some(Box::new(Node::Literal(Literal::new(number.as_str()))))),
        Simple::Text(text) => Ok(Some(Box::new(Node::Literal(Literal::new(text.as_str()))))),
        Simple::Ident(ident) => Ok(Some(Box::new(Node::Literal(Literal::new(ident.as_str()))))),
        Simple::Operator(op) => Ok(Some(Box::new(Node::Literal(Literal::new(op.as_str()))))),
        Simple::Sign(sign) => Ok(Some(Box::new(Node::Literal(Literal::new(sign.as_str()))))),
        Simple::Symbol(symbol) => {
            let glyph = table.lookup(symbol.as_str());
            Ok(Some(Box::new(Node::Literal(Literal::new(glyph.as_str())))))
        },
        Simple::Signed { sign, operand } => {
            let opr = visit_simple(operand, table, true);
            let operand_node = match opr {
                Err(e) => {
                    return Err(e);
                },
                Ok(Some(n)) => {
                    proof {
                        lemma_ok_some_not_yields(**operand, tbl, true, *n);
                    }
                    n
                },
                Ok(None) => {
                    proof {
                        lemma_ok_none_yields(**operand, tbl, true);
                    }
                    blank_literal()
                },
            };
            let sign_lit: Box<Node> = Box::new(Node::Literal(Literal::new(sign.as_str())));
            let mut parts: Vec<Box<Node>> = Vec::new();
            proof {
                assert(all_wf(parts@));
            }
            proof {
                lemma_all_wf_push(parts@, sign_lit);
            }
            parts.push(sign_lit);
            proof {
                lemma_all_wf_push(parts@, operand_node);
            }
            parts.push(operand_node);
            Ok(Some(Box::new(Node::Expr(Expr::new(parts)))))
        },
        Simple::Unary { op, arg } => {
            if str_eq(op.as_str(), "sqrt") {
                let ar = visit_simple(arg, table, true);
                let radicand = match ar {
                    Err(e) => {
                        return Err(e);
                    },
                    Ok(Some(n)) => {
                        proof {
                            lemma_ok_some_not_yields(**arg, tbl, true, *n);
                        }
                        n
                    },
                    Ok(None) => {
                        proof {
                            lemma_ok_none_yields(**arg, tbl, true);
                        }
                        blank_literal()
                    },
                };
                Ok(Some(Box::new(Node::Sqrt(Sqrt::new(radicand)))))
            } else {
                Err(RenderError::UnsupportedConstruct)
            }
        },
        Simple::Func { .. } => Ok(None),
        Simple::Binary { op, first, second } => {
            if str_eq(op.as_str(), "frac") || str_eq(op.as_str(), "stackrel") || str_eq(
                op.as_str(),
                "root",
            ) {
                let fr = visit_simple(first, table, true);
                let first_node = match fr {
                    Err(e) => {
                        return Err(e);
                    },
                    Ok(Some(n)) => {
                        proof {
                            lemma_ok_some_not_yields(**first, tbl, true, *n);
                        }
                        n
                    },
                    Ok(None) => {
                        proof {
                            lemma_ok_none_yields(**first, tbl, true);
                        }
                        blank_literal()
                    },
                };
                let sr = visit_simple(second, table, true);
                let second_node = match sr {
                    Err(e) => {
                        return Err(e);
                    },
                    Ok(Some(n)) => {
                        proof {
                            lemma_ok_some_not_yields(**second, tbl, true, *n);
                        }
                        n
                    },
                    Ok(None) => {
                        proof {
                            lemma_ok_none_yields(**second, tbl, true);
                        }
                        blank_literal()
                    },
                };
                if str_eq(op.as_str(), "frac") {
                    Ok(Some(Box::new(Node::Div(Div::new(first_node, second_node)))))
                } else if str_eq(op.as_str(), "stackrel") {
                    Ok(Some(Box::new(Node::Stack(Stack::new(first_node, second_node)))))
                } else {
                    Ok(Some(Box::new(Node::Root(Root::new(first_node, second_node)))))
                }
            } else {
                Err(RenderError::UnsupportedConstruct)
            }
        },
        Simple::Group { left_bracket, expr, right_bracket } => {
            let rendered_expr = visit_expr(expr, table);
            match rendered_expr {
                Err(e) => Err(e),
                Ok(inner) => {
                    let lb = if omit_braces {
                        BracketType::NoBracket
                    } else {
                        bracket_type(left_bracket.as_str())
                    };
                    let rb = if omit_braces {
                        BracketType::NoBracket
                    } else {
                        bracket_type(right_bracket.as_str())
                    };
                    Ok(Some(Box::new(Node::Group(Group::new(lb, inner, rb)))))
                },
            }
        },
        Simple::Matrix { left_bracket, cells, num_cols, right_bracket } => visit_matrix(
            left_bracket,
            cells,
            *num_cols,
            right_bracket,
            table,
        ),
    }
}

/// Translate a matrix: its brackets resolved, each cell translated into
/// its slot, a blank literal standing for an empty cell. Angled brackets
/// around a matrix, which do not fit the single bracket column a matrix
/// reserves, are not supported.
fn visit_matrix(
    left_bracket: &String,
    cells: &Vec<Expression>,
    num_cols: usize,
    right_bracket: &String,
    table: &SymbolTable,
) -> (r: Result<Option<Box<Node>>, RenderError>)
    ensures
        is_simple_translation(
            (Simple::Matrix {
                left_bracket: *left_bracket,
                cells: *cells,
                num_cols: num_cols,
                right_bracket: *right_bracket,
            }),
            table_entries(*table),
            false,
            unbox_result(r),
        ),
        is_simple_translation(
            (Simple::Matrix {
                left_bracket: *left_bracket,
                cells: *cells,
                num_cols: num_cols,
                right_bracket: *right_bracket,
            }),
            table_entries(*table),
            true,
            unbox_result(r),
        ),
        r matches Ok(Some(n)) ==> node_wf(*n) && 1 <= node_height(*n),
    decreases *cells,
{
    let ghost tbl = table_entries(*table);
    let lb = bracket_type(left_bracket.as_str());
    let rb = bracket_type(right_bracket.as_str());
    let lb_angled = matches!(lb, BracketType::LeftAngled | BracketType::RightAngled);
    let rb_angled = matches!(rb, BracketType::LeftAngled | BracketType::RightAngled);
    if lb_angled || rb_angled {
        return Err(RenderError::UnsupportedConstruct);
    }
    if num_cols == 0 || cells.len() == 0 || cells.len() % num_cols != 0 {
        return Err(RenderError::MalformedMatrix);
    }
    let mut nodes: Vec<Box<Node>> = Vec::new();
    for i in 0..cells.len()
        invariant
            tbl == table_entries(*table),
            lb == spec_bracket_type(left_bracket@),
            rb == spec_bracket_type(right_bracket@),
            !(lb is LeftAngled),
            !(lb is RightAngled),
            !(rb is LeftAngled),
            !(rb is RightAngled),
            1 <= num_cols,
            1 <= cells@.len(),
            cells@.len() as int % (num_cols as int) == 0,
            nodes@.len() == i,
            is_cells_ok(cells@.subrange(0, i as int), tbl, nodes@),
            forall|j: int| 0 <= j < i ==> expression_err(#[trigger] cells@[j]) is None,
            forall|j: int| 0 <= j < nodes@.len() ==> 1 <= node_height(*#[trigger] nodes@[j]),
            all_wf(nodes@),
    {
        let cr = visit_expr(&cells[i], table);
        proof {
            assert(cells@.subrange(0, i + 1).drop_last() =~= cells@.subrange(0, i as int));
            assert(cells@.subrange(0, i + 1).last() == cells@[i as int]);
        }
        let cell_node = match cr {
            Err(e) => {
                proof {
                    lemma_cells_err_skip(cells@, i as int);
                    assert(cells@.skip(i as int)[0] == cells@[i as int]);
                }
                return Err(e);
            },
            Ok(Some(n)) => {
                proof {
                    lemma_items_ok_nonempty(
                        cells@[i as int].items@,
                        tbl,
                        (match *n {
                            Node::Expr(ref ex) => ex.exprs@,
                            _ => Seq::<Box<Node>>::empty(),
                        }),
                    );
                    assert(!expression_yields_none(cells@[i as int]));
                    assert(is_cell_node(cells@[i as int], tbl, *n));
                }
                n
            },
            Ok(None) => {
                let b = blank_literal();
                proof {
                    lemma_items_ok_empty(cells@[i as int].items@, tbl);
                    assert(expression_yields_none(cells@[i as int]));
                    assert(is_cell_node(cells@[i as int], tbl, *b));
                }
                b
            },
        };
        proof {
            lemma_all_wf_push(nodes@, cell_node);
            assert(nodes@.push(cell_node).drop_last() =~= nodes@);
            assert(nodes@.push(cell_node).last() == cell_node);
        }
        nodes.push(cell_node);
        proof {
            assert(is_cells_ok(cells@.subrange(0, i + 1), tbl, nodes@));
        }
    }
    proof {
        assert(cells@.subrange(0, cells@.len() as int) =~= cells@);
        lemma_cells_err_skip(cells@, cells@.len() as int);
        assert(cells@.skip(cells@.len() as int) =~= Seq::<Expression>::empty());
    }
    let m = Matrix::new(lb, nodes, rb, num_cols);
    proof {
        lemma_translated_matrix_wf(m);
    }
    Ok(Some(Box::new(Node::Matrix(m))))
}

/// Translate a simple element with its scripts. A base that yields no
/// node yields none overall, and its scripts are never visited.
pub fn visit_simple_script(
    simple_script: &SimpleScript,
    table: &SymbolTable,
    omit_braces: bool,
) -> (r: Result<Option<Box<Node>>, RenderError>)
    ensures
        is_simple_script_translation(
            *simple_script,
            table_entries(*table),
            omit_braces,
            unbox_result(r),
        ),
        r matches Ok(Some(n)) ==> node_wf(*n) && 1 <= node_height(*n),
    decreases *simple_script,
{
    let ghost tbl = table_entries(*table);
    let base = visit_simple(&simple_script.simple, table, omit_braces);
    match base {
        Err(e) => Err(e),
        Ok(None) => {
            proof {
                lemma_ok_none_yields(simple_script.simple, tbl, omit_braces);
            }
            Ok(None)
        },
        Ok(Some(expr)) => {
            proof {
                lemma_ok_some_not_yields(simple_script.simple, tbl, omit_braces, *expr);
            }
            match &simple_script.script {
                Script::NoScript => Ok(Some(expr)),
                Script::Sub(simple) => {
                    let sr = visit_simple(simple, table, true);
                    let sub_expr = match sr {
                        Err(e) => {
                            return Err(e);
                        },
                        Ok(Some(n)) => {
                            proof {
                                lemma_ok_some_not_yields(**simple, tbl, true, *n);
                            }
                            n
                        },
                        Ok(None) => {
                            proof {
                                lemma_ok_none_yields(**simple, tbl, true);
                            }
                            blank_literal()
                        },
                    };
                    Ok(
                        Some(
                            Box::new(
                                Node::ScriptExpr(ScriptExpr::new(expr, Some(sub_expr), None)),
                            ),
                        ),
                    )
                },
                Script::Super(simple) => {
                    let sr = visit_simple(simple, table, true);
                    let sup_expr = match sr {
                        Err(e) => {
                            return Err(e);
                        },
                        Ok(Some(n)) => {
                            proof {
                                lemma_ok_some_not_yields(**simple, tbl, true, *n);
                            }
                            n
                        },
                        Ok(None) => {
                            proof {
                                lemma_ok_none_yields(**simple, tbl, true);
                            }
                            blank_literal()
                        },
                    };
                    Ok(
                        Some(
                            Box::new(
                                Node::ScriptExpr(ScriptExpr::new(expr, None, Some(sup_expr))),
                            ),
                        ),
                    )
                },
                Script::Subsuper(simple1, simple2) => {
                    let sr = visit_simple(simple1, table, true);
                    let sub_expr = match sr {
                        Err(e) => {
                            return Err(e);
                        },
                        Ok(Some(n)) => {
                            proof {
                                lemma_ok_some_not_yields(**simple1, tbl, true, *n);
                            }
                            n
                        },
                        Ok(None) => {
                            proof {
                                lemma_ok_none_yields(**simple1, tbl, true);
                            }
                            blank_literal()
                        },
                    };
                    let pr = visit_simple(simple2, table, true);
                    let sup_expr = match pr {
                        Err(e) => {
                            return Err(e);
                        },
                        Ok(Some(n)) => {
                            proof {
                                lemma_ok_some_not_yields(**simple2, tbl, true, *n);
                            }
                            n
                        },
                        Ok(None) => {
                            proof {
                                lemma_ok_none_yields(**simple2, tbl, true);
                            }
                            blank_literal()
                        },
                    };
                    Ok(
                        Some(
                            Box::new(
                                Node::ScriptExpr(
                                    ScriptExpr::new(expr, Some(sub_expr), Some(sup_expr)),
                                ),
                            ),
                        ),
                    )
                },
            }
        },
    }
}

/// Translate a named function with its argument: a row of the scripted
/// function name and the argument's node.
#[verifier::rlimit(100)]
pub fn visit_func(func: &FuncCall, table: &SymbolTable) -> (r: Result<
    Option<Box<Node>>,
    RenderError,
>)
    ensures
        is_func_translation(*func, table_entries(*table), unbox_result(r)),
        r matches Ok(Some(n)) ==> node_wf(*n) && 1 <= node_height(*n),
    decreases *func,
{
    let ghost tbl = table_entries(*table);
    let ar = visit_script_func(&func.arg, table, false);
    let arg = match ar {
        Err(e) => {
            return Err(e);
        },
        Ok(Some(n)) => {
            proof {
                lemma_sf_ok_some(*func.arg, tbl, false, *n);
            }
            n
        },
        Ok(None) => {
            proof {
                lemma_sf_ok_none(*func.arg, tbl, false);
            }
            blank_literal()
        },
    };
    let func_lit: Box<Node> = Box::new(Node::Literal(Literal::new(func.func.as_str())));
    let func_expr: Box<Node> = match &func.script {
        Script::NoScript => func_lit,
        Script::Sub(simple) => {
            let sr = visit_simple(simple, table, true);
            let sub_expr = match sr {
                Err(e) => {
                    return Err(e);
                },
                Ok(Some(n)) => {
                    proof {
                        lemma_ok_some_not_yields(**simple, tbl, true, *n);
                    }
                    n
                },
                Ok(None) => {
                    proof {
                        lemma_ok_none_yields(**simple, tbl, true);
                    }
                    blank_literal()
                },
            };
            Box::new(Node::ScriptExpr(ScriptExpr::new(func_lit, Some(sub_expr), None)))
        },
        Script::Super(simple) => {
            let sr = visit_simple(simple, table, true);
            let sup_expr = match sr {
                Err(e) => {
                    return Err(e);
                },
                Ok(Some(n)) => {
                    proof {
                        lemma_ok_some_not_yields(**simple, tbl, true, *n);
                    }
                    n
                },
                Ok(None) => {
                    proof {
                        lemma_ok_none_yields(**simple, tbl, true);
                    }
                    blank_literal()
                },
            };
            Box::new(Node::ScriptExpr(ScriptExpr::new(func_lit, None, Some(sup_expr))))
        },
        Script::Subsuper(simple1, simple2) => {
            let sr = visit_simple(simple1, table, false);
            let sub_expr = match sr {
                Err(e) => {
                    return Err(e);
                },
                Ok(Some(n)) => {
                    proof {
                        lemma_ok_some_not_yields(**simple1, tbl, false, *n);
                    }
                    n
                },
                Ok(None) => {
                    proof {
                        lemma_ok_none_yields(**simple1, tbl, false);
                    }
                    blank_literal()
                },
            };
            let pr = visit_simple(simple2, table, false);
            let sup_expr = match pr {
                Err(e) => {
                    return Err(e);
                },
                Ok(Some(n)) => {
                    proof {
                        lemma_ok_some_not_yields(**simple2, tbl, false, *n);
                    }
                    n
                },
                Ok(None) => {
                    proof {
                        lemma_ok_none_yields(**simple2, tbl, false);
                    }
                    blank_literal()
                },
            };
            Box::new(Node::ScriptExpr(ScriptExpr::new(func_lit, Some(sub_expr), Some(sup_expr))))
        },
    };
    let mut parts: Vec<Box<Node>> = Vec::new();
    proof {
        lemma_all_wf_push(parts@, func_expr);
    }
    parts.push(func_expr);
    proof {
        lemma_all_wf_push(parts@, arg);
    }
    parts.push(arg);
    Ok(Some(Box::new(Node::Expr(Expr::new(parts)))))
}

/// Translate a scripted element or function application.
pub fn visit_script_func(
    script_func: &ScriptFunc,
    table: &SymbolTable,
    omit_braces: bool,
) -> (r: Result<Option<Box<Node>>, RenderError>)
    ensures
        is_script_func_translation(
            *script_func,
            table_entries(*table),
            omit_braces,
            unbox_result(r),
        ),
        r matches Ok(Some(n)) ==> node_wf(*n) && 1 <= node_height(*n),
    decreases *script_func,
{
    let ghost tbl = table_entries(*table);
    match script_func {
        ScriptFunc::Simple(simple_script) => visit_simple_script(
            simple_script,
            table,
            omit_braces,
        ),
        ScriptFunc::Func(func) => visit_func(func, table),
        ScriptFunc::Signed(signed) => {
            let opr = visit_script_func(&signed.operand, table, omit_braces);
            let operand_node = match opr {
                Err(e) => {
                    return Err(e);
                },
                Ok(Some(n)) => {
                    proof {
                        lemma_sf_ok_some(*signed.operand, tbl, omit_braces, *n);
                    }
                    n
                },
                Ok(None) => {
                    proof {
                        lemma_sf_ok_none(*signed.operand, tbl, omit_braces);
                    }
                    blank_literal()
                },
            };
            let sign_lit: Box<Node> = Box::new(Node::Literal(Literal::new(signed.sign.as_str())));
            let mut parts: Vec<Box<Node>> = Vec::new();
            proof {
                lemma_all_wf_push(parts@, sign_lit);
            }
            parts.push(sign_lit);
            proof {
                lemma_all_wf_push(parts@, operand_node);
            }
            parts.push(operand_node);
            Ok(Some(Box::new(Node::Expr(Expr::new(parts)))))
        },
    }
}

/// Translate a slashed fraction: numerator over denominator, each with
/// its own brackets suppressed.
pub fn visit_fraction(fraction: &Frac, table: &SymbolTable) -> (r: Result<
    Option<Box<Node>>,
    RenderError,
>)
    ensures
        is_fraction_translation(*fraction, table_entries(*table), unbox_result(r)),
        r matches Ok(Some(n)) ==> node_wf(*n) && 1 <= node_height(*n),
    decreases *fraction,
{
    let ghost tbl = table_entries(*table);
    let nr = visit_script_func(&fraction.numer, table, true);
    let numer = match nr {
        Err(e) => {
            return Err(e);
        },
        Ok(Some(n)) => {
            proof {
                lemma_sf_ok_some(*fraction.numer, tbl, true, *n);
            }
            n
        },
        Ok(None) => {
            proof {
                lemma_sf_ok_none(*fraction.numer, tbl, true);
            }
            blank_literal()
        },
    };
    let dr = visit_script_func(&fraction.denom, table, true);
    let denom = match dr {
        Err(e) => {
            return Err(e);
        },
        Ok(Some(n)) => {
            proof {
                lemma_sf_ok_some(*fraction.denom, tbl, true, *n);
            }
            n
        },
        Ok(None) => {
            proof {
                lemma_sf_ok_none(*fraction.denom, tbl, true);
            }
            blank_literal()
        },
    };
    Ok(Some(Box::new(Node::Div(Div::new(numer, denom)))))
}

/// Translate an expression sequence into a row of nodes, leaving out the
/// elements that yield no node; a sequence with nothing to show yields no
/// node at all.
#[verifier::rlimit(100)]
pub fn visit_expr(expr: &Expression, table: &SymbolTable) -> (r: Result<
    Option<Box<Node>>,
    RenderError,
>)
    ensures
        is_expression_translation(*expr, table_entries(*table), unbox_result(r)),
        r matches Ok(Some(n)) ==> node_wf(*n) && 1 <= node_height(*n),
    decreases *expr,
{
    let ghost tbl = table_entries(*table);
    let mut nodes: Vec<Box<Node>> = Vec::new();
    for i in 0..expr.items.len()
        invariant
            tbl == table_entries(*table),
            is_items_ok(expr.items@.subrange(0, i as int), tbl, nodes@),
            forall|j: int| 0 <= j < i ==> intermediate_err(#[trigger] expr.items@[j]) is None,
            forall|j: int| 0 <= j < nodes@.len() ==> 1 <= node_height(*#[trigger] nodes@[j]),
            all_wf(nodes@),
    {
        let ir = match &expr.items[i] {
            Intermediate::ScriptFunc(script_func) => {
                let rr = visit_script_func(script_func, table, false);
                proof {
                    assert(expr.items@[i as int] == Intermediate::ScriptFunc(*script_func));
                    assert(is_script_func_translation(*script_func, tbl, false, unbox_result(rr)));
                }
                rr
            },
            Intermediate::Frac(fraction) => {
                let rr = visit_fraction(fraction, table);
                proof {
                    assert(expr.items@[i as int] == Intermediate::Frac(*fraction));
                    assert(is_fraction_translation(*fraction, tbl, unbox_result(rr)));
                }
                rr
            },
            Intermediate::Space(_) => Ok(None),
        };
        proof {
            assert(expr.items@.subrange(0, i + 1).drop_last() =~= expr.items@.subrange(
                0,
                i as int,
            ));
            assert(expr.items@.subrange(0, i + 1).last() == expr.items@[i as int]);
        }
        match ir {
            Err(e) => {
                proof {
                    lemma_items_err_skip(expr.items@, i as int);
                    assert(expr.items@.skip(i as int)[0] == expr.items@[i as int]);
                }
                return Err(e);
            },
            Ok(Some(n)) => {
                proof {
                    lemma_all_wf_push(nodes@, n);
                    match expr.items@[i as int] {
                        Intermediate::ScriptFunc(sf) => {
                            lemma_sf_ok_some(sf, tbl, false, *n);
                        },
                        Intermediate::Frac(_) => {},
                        Intermediate::Space(_) => {},
                    }
                    assert(nodes@.push(n).drop_last() =~= nodes@);
                    assert(nodes@.push(n).last() == n);
                }
                nodes.push(n);
                proof {
                    assert(!intermediate_yields_none(expr.items@[i as int]));
                    assert(is_intermediate_ok(expr.items@[i as int], tbl, *nodes@.last()));
                    assert(is_items_ok(expr.items@.subrange(0, i + 1), tbl, nodes@));
                }
            },
            Ok(None) => {
                proof {
                    match expr.items@[i as int] {
                        Intermediate::ScriptFunc(sf) => {
                            lemma_sf_ok_none(sf, tbl, false);
                        },
                        Intermediate::Frac(_) => {},
                        Intermediate::Space(_) => {},
                    }
                    assert(intermediate_yields_none(expr.items@[i as int]));
                    assert(is_items_ok(expr.items@.subrange(0, i + 1), tbl, nodes@));
                }
            },
        }
    }
    proof {
        assert(expr.items@.subrange(0, expr.items@.len() as int) =~= expr.items@);
        lemma_items_err_skip(expr.items@, expr.items@.len() as int);
        assert(expr.items@.skip(expr.items@.len() as int) =~= Seq::<Intermediate>::empty());
    }
    if nodes.len() == 0 {
        proof {
            assert(nodes@ =~= Seq::<Box<Node>>::empty());
        }
        Ok(None)
    } else {
        Ok(Some(Box::new(Node::Expr(Expr::new(nodes)))))
    }
}

} // verus!


