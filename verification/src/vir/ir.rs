//! Verilog IR: modules, declarations, expressions and statements.

use vstd::prelude::*;

use crate::compiler::ops::{BinaryOp, UnaryOp};
use crate::compiler::prelude::{Shape, ShapeView};
use crate::utils::string::opt_view;

verus! {

/// Verilog module.
#[derive(Debug)]
pub struct Module {
    /// Module name
    pub name: String,
    /// Port declarations
    pub port_decls: Vec<PortDeclaration>,
    /// Module items
    pub module_items: Vec<ModuleItem>,
}

/// Port declaration: direction, width and name.
#[derive(Debug)]
pub enum PortDeclaration {
    /// Input port
    Input(usize, String),
    /// Output port
    Output(usize, String),
}

/// Module item.
#[derive(Debug)]
pub enum ModuleItem {
    /// Net, register and integer declarations
    Declarations(Vec<Declaration>),
    /// Continuous assignments
    ContinuousAssigns(Vec<ContinuousAssign>),
    /// Instantiation of another module
    ModuleInstantiation(ModuleInstantiation),
    /// Always block: its event control and its statements
    AlwaysConstruct(String, Vec<Statement>),
    /// Items between a comment before and an optional comment after
    Commented(String, Option<String>, Vec<ModuleItem>),
}

/// Declaration.
#[derive(Debug)]
pub enum Declaration {
    /// Wire
    Net(Shape, String),
    /// Register, with an optional initial value
    Reg(Shape, String, Option<Expression>),
    /// Integer
    Integer(String),
}

/// Continuous assignment `assign lhs = rhs`.
#[derive(Debug)]
pub struct ContinuousAssign(pub Expression, pub Expression);

/// Module instantiation.
#[derive(Debug)]
pub struct ModuleInstantiation {
    /// Name of the instantiated module
    pub module_name: String,
    /// Name of the instance
    pub inst_name: String,
    /// Parameters
    pub params: Vec<(String, usize)>,
    /// Port connections: port name and connected expression
    pub port_connections: Vec<(String, Expression)>,
}

/// Statement of an always block.
#[derive(Debug)]
pub enum Statement {
    /// `lhs = rhs`
    BlockingAssignment(Expression, Expression),
    /// `if .. else if .. else ..`: guarded branches, then the else branch
    Conditional(Vec<(Expression, Vec<Statement>)>, Vec<Statement>),
    /// `for` loop over an integer variable up to a count
    Loop(String, Expression, Vec<Statement>),
    /// `lhs <= rhs`
    NonblockingAssignment(Expression, Expression),
    /// `case`: scrutinee, cases and default
    Case(Expression, Vec<(Expression, Vec<Statement>)>, Vec<Statement>),
    /// `$display` with a format string and arguments
    Display(String, Vec<Expression>),
    /// `$fatal`
    Fatal,
}

/// Expression.
#[derive(Debug)]
pub enum Expression {
    /// Primary expression
    Primary(Primary),
    /// Unary operation
    Unary(UnaryOp, Primary),
    /// Binary operation
    Binary(Box<Expression>, BinaryOp, Box<Expression>),
    /// `cond ? then : else`
    Conditional(Box<Expression>, Box<Expression>, Box<Expression>),
}

/// Primary expression.
#[derive(Debug)]
pub enum Primary {
    /// Number literal
    Number(String),
    /// Identifier with an optional range
    HierarchicalIdentifier(String, Option<Range>),
    /// `{a, b, ..}`
    Concatenation(Concatenation),
    /// `{n{a, b, ..}}`
    MultipleConcatenation(usize, Concatenation),
    /// Parenthesized expression
    MintypmaxExpression(Box<Expression>),
}

/// Range of an identifier.
#[derive(Debug)]
pub enum Range {
    /// `[index]`
    Index(Box<Expression>),
    /// `[base +: offset]`
    Range(Box<Expression>, Box<Expression>),
}

/// Concatenation.
#[derive(Debug)]
pub struct Concatenation {
    /// Concatenated expressions
    pub exprs: Vec<Expression>,
}

/// Mathematical value of an expression.
pub enum ExprV {
    /// Primary expression
    Primary(PrimV),
    /// Unary operation
    Unary(UnaryOp, PrimV),
    /// Binary operation
    Binary(Box<ExprV>, BinaryOp, Box<ExprV>),
    /// Conditional
    Conditional(Box<ExprV>, Box<ExprV>, Box<ExprV>),
}

/// Mathematical value of a primary expression.
pub enum PrimV {
    /// Number literal
    Number(Seq<char>),
    /// Identifier with an optional range
    Ident(Seq<char>, Option<RangeV>),
    /// Concatenation
    Concat(Seq<ExprV>),
    /// Repeated concatenation
    MultiConcat(usize, Seq<ExprV>),
    /// Parenthesized expression
    Mintypmax(Box<ExprV>),
}

/// Mathematical value of a range.
pub enum RangeV {
    /// `[index]`
    Index(Box<ExprV>),
    /// `[base +: offset]`
    Range(Box<ExprV>, Box<ExprV>),
}

/// Mathematical value of a statement.
pub enum StmtV {
    /// `lhs = rhs`
    Blocking(ExprV, ExprV),
    /// Guarded branches and else branch
    Conditional(Seq<(ExprV, Seq<StmtV>)>, Seq<StmtV>),
    /// Loop variable, count and body
    Loop(Seq<char>, ExprV, Seq<StmtV>),
    /// `lhs <= rhs`
    Nonblocking(ExprV, ExprV),
    /// Scrutinee, cases and default
    Case(ExprV, Seq<(ExprV, Seq<StmtV>)>, Seq<StmtV>),
    /// Format string and arguments
    Display(Seq<char>, Seq<ExprV>),
    /// `$fatal`
    Fatal,
}

/// Mathematical value of a declaration.
pub enum DeclV {
    /// Wire
    Net(ShapeView, Seq<char>),
    /// Register with optional initial value
    Reg(ShapeView, Seq<char>, Option<ExprV>),
    /// Integer
    Integer(Seq<char>),
}

/// Mathematical value of a module instantiation.
pub struct InstV {
    /// Name of the instantiated module
    pub module_name: Seq<char>,
    /// Name of the instance
    pub inst_name: Seq<char>,
    /// Parameters
    pub params: Seq<(Seq<char>, usize)>,
    /// Port connections
    pub port_connections: Seq<(Seq<char>, ExprV)>,
}

/// Mathematical value of a module item.
pub enum ItemV {
    /// Declarations
    Declarations(Seq<DeclV>),
    /// Continuous assignments, as (lhs, rhs)
    ContinuousAssigns(Seq<(ExprV, ExprV)>),
    /// Module instantiation
    ModuleInstantiation(InstV),
    /// Always block
    AlwaysConstruct(Seq<char>, Seq<StmtV>),
    /// Commented items
    Commented(Seq<char>, Option<Seq<char>>, Seq<ItemV>),
}

/// Mathematical value of a port declaration.
pub enum PortDeclV {
    /// Input port
    Input(usize, Seq<char>),
    /// Output port
    Output(usize, Seq<char>),
}

/// Mathematical value of a module.
pub struct ModuleV {
    /// Module name
    pub name: Seq<char>,
    /// Port declarations
    pub port_decls: Seq<PortDeclV>,
    /// Module items
    pub module_items: Seq<ItemV>,
}

/// View of an expression.
pub open spec fn expr_v(e: Expression) -> ExprV
    decreases e,
{
    match e {
        Expression::Primary(p) => ExprV::Primary(prim_v(p)),
        Expression::Unary(op, p) => ExprV::Unary(op, prim_v(p)),
        Expression::Binary(l, op, r) => ExprV::Binary(Box::new(expr_v(*l)), op, Box::new(expr_v(*r))),
        Expression::Conditional(c, t, f) => ExprV::Conditional(
            Box::new(expr_v(*c)),
            Box::new(expr_v(*t)),
            Box::new(expr_v(*f)),
        ),
    }
}

/// View of a primary expression.
pub open spec fn prim_v(p: Primary) -> PrimV
    decreases p,
{
    match p {
        Primary::Number(s) => PrimV::Number(s@),
        Primary::HierarchicalIdentifier(s, r) => PrimV::Ident(
            s@,
            match r {
                Some(r) => Some(range_v(r)),
                None => None,
            },
        ),
        Primary::Concatenation(c) => PrimV::Concat(exprs_v(c.exprs@)),
        Primary::MultipleConcatenation(n, c) => PrimV::MultiConcat(n, exprs_v(c.exprs@)),
        Primary::MintypmaxExpression(e) => PrimV::Mintypmax(Box::new(expr_v(*e))),
    }
}

/// View of a range.
pub open spec fn range_v(r: Range) -> RangeV
    decreases r,
{
    match r {
        Range::Index(e) => RangeV::Index(Box::new(expr_v(*e))),
        Range::Range(b, o) => RangeV::Range(Box::new(expr_v(*b)), Box::new(expr_v(*o))),
    }
}

/// Views of a sequence of expressions.
pub open spec fn exprs_v(s: Seq<Expression>) -> Seq<ExprV>
    decreases s,
{
    Seq::new(
        s.len(),
        |i: int|
            if 0 <= i < s.len() {
                expr_v(s[i])
            } else {
                ExprV::Primary(PrimV::Number(seq![]))
            },
    )
}

/// View of a statement.
pub open spec fn stmt_v(st: Statement) -> StmtV
    decreases st,
{
    match st {
        Statement::BlockingAssignment(l, r) => StmtV::Blocking(expr_v(l), expr_v(r)),
        Statement::Conditional(b, e) => StmtV::Conditional(branches_v(b@), stmts_v(e@)),
        Statement::Loop(x, c, b) => StmtV::Loop(x@, expr_v(c), stmts_v(b@)),
        Statement::NonblockingAssignment(l, r) => StmtV::Nonblocking(expr_v(l), expr_v(r)),
        Statement::Case(e, b, d) => StmtV::Case(expr_v(e), branches_v(b@), stmts_v(d@)),
        Statement::Display(f, a) => StmtV::Display(f@, exprs_v(a@)),
        Statement::Fatal => StmtV::Fatal,
    }
}

/// Views of a sequence of statements.
pub open spec fn stmts_v(s: Seq<Statement>) -> Seq<StmtV>
    decreases s,
{
    Seq::new(s.len(), |i: int| if 0 <= i < s.len() { stmt_v(s[i]) } else { StmtV::Fatal })
}

/// Views of guarded branches.
pub open spec fn branches_v(s: Seq<(Expression, Vec<Statement>)>) -> Seq<(ExprV, Seq<StmtV>)>
    decreases s,
{
    Seq::new(
        s.len(),
        |i: int|
            if 0 <= i < s.len() {
                (expr_v(s[i].0), stmts_v(s[i].1@))
            } else {
                (ExprV::Primary(PrimV::Number(seq![])), seq![])
            },
    )
}

/// View of a declaration.
pub open spec fn decl_v(d: Declaration) -> DeclV {
    match d {
        Declaration::Net(s, x) => DeclV::Net(s@, x@),
        Declaration::Reg(s, x, i) => DeclV::Reg(
            s@,
            x@,
            match i {
                Some(e) => Some(expr_v(e)),
                None => None,
            },
        ),
        Declaration::Integer(x) => DeclV::Integer(x@),
    }
}

/// Views of declarations.
pub open spec fn decls_v(s: Seq<Declaration>) -> Seq<DeclV> {
    s.map_values(|d: Declaration| decl_v(d))
}

/// Views of continuous assignments.
pub open spec fn conts_v(s: Seq<ContinuousAssign>) -> Seq<(ExprV, ExprV)> {
    s.map_values(|c: ContinuousAssign| (expr_v(c.0), expr_v(c.1)))
}

/// View of a module instantiation.
pub open spec fn inst_v(m: ModuleInstantiation) -> InstV {
    InstV {
        module_name: m.module_name@,
        inst_name: m.inst_name@,
        params: m.params@.map_values(|p: (String, usize)| (p.0@, p.1)),
        port_connections: m.port_connections@.map_values(|p: (String, Expression)| (p.0@, expr_v(p.1))),
    }
}

/// View of a module item.
pub open spec fn item_v(it: ModuleItem) -> ItemV
    decreases it,
{
    match it {
        ModuleItem::Declarations(d) => ItemV::Declarations(decls_v(d@)),
        ModuleItem::ContinuousAssigns(c) => ItemV::ContinuousAssigns(conts_v(c@)),
        ModuleItem::ModuleInstantiation(m) => ItemV::ModuleInstantiation(inst_v(m)),
        ModuleItem::AlwaysConstruct(ev, s) => ItemV::AlwaysConstruct(ev@, stmts_v(s@)),
        ModuleItem::Commented(b, a, items) => ItemV::Commented(b@, opt_view(a), items_v(items@)),
    }
}

/// Views of module items.
pub open spec fn items_v(s: Seq<ModuleItem>) -> Seq<ItemV>
    decreases s,
{
    Seq::new(
        s.len(),
        |i: int| if 0 <= i < s.len() { item_v(s[i]) } else { ItemV::Declarations(seq![]) },
    )
}

/// View of a port declaration.
pub open spec fn port_decl_v(p: PortDeclaration) -> PortDeclV {
    match p {
        PortDeclaration::Input(w, x) => PortDeclV::Input(w, x@),
        PortDeclaration::Output(w, x) => PortDeclV::Output(w, x@),
    }
}

/// Views of port declarations.
pub open spec fn port_decls_v(s: Seq<PortDeclaration>) -> Seq<PortDeclV> {
    s.map_values(|p: PortDeclaration| port_decl_v(p))
}

impl View for Expression {
    type V = ExprV;

    open spec fn view(&self) -> ExprV {
        expr_v(*self)
    }
}

impl View for Statement {
    type V = StmtV;

    open spec fn view(&self) -> StmtV {
        stmt_v(*self)
    }
}

impl View for Declaration {
    type V = DeclV;

    open spec fn view(&self) -> DeclV {
        decl_v(*self)
    }
}

impl View for ModuleItem {
    type V = ItemV;

    open spec fn view(&self) -> ItemV {
        item_v(*self)
    }
}

impl View for PortDeclaration {
    type V = PortDeclV;

    open spec fn view(&self) -> PortDeclV {
        port_decl_v(*self)
    }
}

impl View for Module {
    type V = ModuleV;

    open spec fn view(&self) -> ModuleV {
        ModuleV {
            name: self.name@,
            port_decls: port_decls_v(self.port_decls@),
            module_items: items_v(self.module_items@),
        }
    }
}

/// Name declared by a port declaration.
pub open spec fn port_decl_name(p: PortDeclV) -> Seq<char> {
    match p {
        PortDeclV::Input(_, x) => x,
        PortDeclV::Output(_, x) => x,
    }
}

/// Shape of a declared net or register (integers have none).
pub open spec fn decl_shape(d: DeclV) -> ShapeView {
    match d {
        DeclV::Net(s, _) => s,
        DeclV::Reg(s, _, _) => s,
        DeclV::Integer(_) => ShapeView { dims: seq![], is_signed: true },
    }
}

/// Name declared by a declaration.
pub open spec fn decl_name(d: DeclV) -> Seq<char> {
    match d {
        DeclV::Net(_, x) => x,
        DeclV::Reg(_, x, _) => x,
        DeclV::Integer(x) => x,
    }
}

/// A plain identifier, with no range.
pub open spec fn is_plain_ident(e: ExprV) -> bool {
    e matches ExprV::Primary(PrimV::Ident(_, None))
}

impl Expression {
    /// Whether the expression is a plain identifier, with no range.
    pub fn is_identifier(&self) -> (r: bool)
        ensures
            r == is_plain_ident(self@),
    {
        match self {
            Expression::Primary(p) => match p {
                Primary::HierarchicalIdentifier(_, r) => {
                    assert(prim_v(*p) is Ident);
                    r.is_none()
                },
                _ => false,
            },
            _ => false,
        }
    }

    /// Identifier expression.
    pub fn ident(name: String) -> (r: Self)
        ensures
            r@ == ExprV::Primary(PrimV::Ident(name@, None)),
    {
        let p = Primary::HierarchicalIdentifier(name, None);
        assert(prim_v(p) == PrimV::Ident(name@, None));
        Expression::Primary(p)
    }

    /// Number literal expression.
    pub fn number(num: String) -> (r: Self)
        ensures
            r@ == ExprV::Primary(PrimV::Number(num@)),
    {
        let p = Primary::Number(num);
        assert(prim_v(p) == PrimV::Number(num@));
        Expression::Primary(p)
    }

    /// Binary operation.
    pub fn binary(op: BinaryOp, lhs: Expression, rhs: Expression) -> (r: Self)
        ensures
            r@ == ExprV::Binary(Box::new(lhs@), op, Box::new(rhs@)),
    {
        Expression::Binary(Box::new(lhs), op, Box::new(rhs))
    }

    /// Unary operation on a parenthesized expression.
    pub fn unary(op: UnaryOp, expr: Expression) -> (r: Self)
        ensures
            r@ == ExprV::Unary(op, PrimV::Mintypmax(Box::new(expr@))),
    {
        let ghost v = expr@;
        let p = Primary::MintypmaxExpression(Box::new(expr));
        assert(prim_v(p) == PrimV::Mintypmax(Box::new(v)));
        Expression::Unary(op, p)
    }

    /// Conditional expression.
    pub fn conditional(cond: Expression, then_expr: Expression, else_expr: Expression) -> (r: Self)
        ensures
            r@ == ExprV::Conditional(Box::new(cond@), Box::new(then_expr@), Box::new(else_expr@)),
    {
        Expression::Conditional(Box::new(cond), Box::new(then_expr), Box::new(else_expr))
    }
}

impl Range {
    /// `[index]`
    pub fn new_index(index: Expression) -> (r: Self)
        ensures
            range_v(r) == RangeV::Index(Box::new(index@)),
    {
        Range::Index(Box::new(index))
    }

    /// `[base +: offset]`
    pub fn new_range(base: Expression, offset: Expression) -> (r: Self)
        ensures
            range_v(r) == RangeV::Range(Box::new(base@), Box::new(offset@)),
    {
        Range::Range(Box::new(base), Box::new(offset))
    }
}

impl Declaration {
    /// Wire declaration.
    pub fn net(shape: Shape, name: String) -> (r: Self)
        ensures
            r@ == DeclV::Net(shape@, name@),
    {
        Declaration::Net(shape, name)
    }

    /// Register declaration without initial value.
    pub fn reg(shape: Shape, name: String) -> (r: Self)
        ensures
            r@ == DeclV::Reg(shape@, name@, None),
    {
        Declaration::Reg(shape, name, None)
    }

    /// Integer declaration.
    pub fn integer(name: String) -> (r: Self)
        ensures
            r@ == DeclV::Integer(name@),
    {
        Declaration::Integer(name)
    }

    /// Shape of a net or register.
    pub fn shape(&self) -> (r: Shape)
        requires
            !(self@ is Integer),
        ensures
            r@ == decl_shape(self@),
    {
        match self {
            Declaration::Net(s, _) => s.clone(),
            Declaration::Reg(s, _, _) => s.clone(),
            Declaration::Integer(_) => vstd::pervasive::unreached(),
        }
    }


    /// Declared name.
    pub fn ident(&self) -> (r: &str)
        ensures
            r@ == decl_name(self@),
    {
        match self {
            Declaration::Net(_, x) => x.as_str(),
            Declaration::Reg(_, x, _) => x.as_str(),
            Declaration::Integer(x) => x.as_str(),
        }
    }
}

impl PortDeclaration {
    /// Input port.
    pub fn input(width: usize, name: String) -> (r: Self)
        ensures
            r@ == PortDeclV::Input(width, name@),
    {
        PortDeclaration::Input(width, name)
    }

    /// Output port.
    pub fn output(width: usize, name: String) -> (r: Self)
        ensures
            r@ == PortDeclV::Output(width, name@),
    {
        PortDeclaration::Output(width, name)
    }

    /// Declared name.
    pub fn name(&self) -> (r: String)
        ensures
            r@ == port_decl_name(self@),
    {
        match self {
            PortDeclaration::Input(_, x) => x.clone(),
            PortDeclaration::Output(_, x) => x.clone(),
        }
    }
}

impl ContinuousAssign {
    /// `assign lhs = rhs`
    pub fn new(lhs: Expression, rhs: Expression) -> (r: Self)
        ensures
            expr_v(r.0) == lhs@,
            expr_v(r.1) == rhs@,
    {
        ContinuousAssign(lhs, rhs)
    }
}

impl ModuleInstantiation {
    /// Instantiation of `module_name` as `inst_name`.
    pub fn new(
        module_name: String,
        inst_name: String,
        params: Vec<(String, usize)>,
        port_connections: Vec<(String, Expression)>,
    ) -> (r: Self)
        ensures
            r.module_name@ == module_name@,
            r.inst_name@ == inst_name@,
            r.params@ == params@,
            r.port_connections@ == port_connections@,
    {
        ModuleInstantiation { module_name, inst_name, params, port_connections }
    }
}

impl Clone for Expression {
    fn clone(&self) -> (r: Self)
        ensures
            r@ == self@,
        decreases self,
    {
        match self {
            Expression::Primary(p) => Expression::Primary(p.clone()),
            Expression::Unary(op, p) => Expression::Unary(*op, p.clone()),
            Expression::Binary(l, op, r) => {
                let l2 = (**l).clone();
                let r2 = (**r).clone();
                Expression::Binary(Box::new(l2), *op, Box::new(r2))
            },
            Expression::Conditional(c, t, f) => {
                let c2 = (**c).clone();
                let t2 = (**t).clone();
                let f2 = (**f).clone();
                Expression::Conditional(Box::new(c2), Box::new(t2), Box::new(f2))
            },
        }
    }
}

impl Clone for Primary {
    fn clone(&self) -> (r: Self)
        ensures
            prim_v(r) == prim_v(*self),
        decreases self,
    {
        match self {
            Primary::Number(s) => Primary::Number(s.clone()),
            Primary::HierarchicalIdentifier(s, r) => {
                let r2 = match r {
                    Some(r) => Some(r.clone()),
                    None => None,
                };
                Primary::HierarchicalIdentifier(s.clone(), r2)
            },
            Primary::Concatenation(c) => Primary::Concatenation(c.clone()),
            Primary::MultipleConcatenation(n, c) => Primary::MultipleConcatenation(*n, c.clone()),
            Primary::MintypmaxExpression(e) => Primary::MintypmaxExpression(Box::new((**e).clone())),
        }
    }
}

impl Clone for Range {
    fn clone(&self) -> (r: Self)
        ensures
            range_v(r) == range_v(*self),
        decreases self,
    {
        match self {
            Range::Index(e) => Range::Index(Box::new((**e).clone())),
            Range::Range(b, o) => Range::Range(Box::new((**b).clone()), Box::new((**o).clone())),
        }
    }
}

impl Clone for Concatenation {
    fn clone(&self) -> (r: Self)
        ensures
            exprs_v(r.exprs@) == exprs_v(self.exprs@),
        decreases self,
    {
        Concatenation { exprs: clone_exprs(&self.exprs) }
    }
}

/// Copies a sequence of expressions.
pub fn clone_exprs(v: &Vec<Expression>) -> (r: Vec<Expression>)
    ensures
        exprs_v(r@) == exprs_v(v@),
    decreases v,
{
    let mut out: Vec<Expression> = Vec::new();
    let mut i: usize = 0;
    while i < v.len()
        invariant
            i <= v.len(),
            out.len() == i,
            forall|j: int| 0 <= j < i ==> expr_v(#[trigger] out@[j]) == expr_v(v@[j]),
        decreases v.len() - i,
    {
        assert(decreases_to!(v => v@[i as int]));
        out.push(v[i].clone());
        i += 1;
    }
    assert(exprs_v(out@) =~= exprs_v(v@));
    out
}

impl Clone for Statement {
    fn clone(&self) -> (r: Self)
        ensures
            r@ == self@,
        decreases self,
    {
        match self {
            Statement::BlockingAssignment(l, r) => Statement::BlockingAssignment(l.clone(), r.clone()),
            Statement::Conditional(b, e) => Statement::Conditional(clone_branches(b), clone_stmts(e)),
            Statement::Loop(x, c, b) => Statement::Loop(x.clone(), c.clone(), clone_stmts(b)),
            Statement::NonblockingAssignment(l, r) => Statement::NonblockingAssignment(l.clone(), r.clone()),
            Statement::Case(e, b, d) => Statement::Case(e.clone(), clone_branches(b), clone_stmts(d)),
            Statement::Display(f, a) => Statement::Display(f.clone(), clone_exprs(a)),
            Statement::Fatal => Statement::Fatal,
        }
    }
}

/// Copies a sequence of statements.
pub fn clone_stmts(v: &Vec<Statement>) -> (r: Vec<Statement>)
    ensures
        stmts_v(r@) == stmts_v(v@),
    decreases v,
{
    let mut out: Vec<Statement> = Vec::new();
    let mut i: usize = 0;
    while i < v.len()
        invariant
            i <= v.len(),
            out.len() == i,
            forall|j: int| 0 <= j < i ==> stmt_v(#[trigger] out@[j]) == stmt_v(v@[j]),
        decreases v.len() - i,
    {
        assert(decreases_to!(v => v@[i as int]));
        out.push(v[i].clone());
        i += 1;
    }
    assert(stmts_v(out@) =~= stmts_v(v@));
    out
}

/// Copies guarded branches.
pub fn clone_branches(v: &Vec<(Expression, Vec<Statement>)>) -> (r: Vec<(Expression, Vec<Statement>)>)
    ensures
        branches_v(r@) == branches_v(v@),
    decreases v,
{
    let mut out: Vec<(Expression, Vec<Statement>)> = Vec::new();
    let mut i: usize = 0;
    while i < v.len()
        invariant
            i <= v.len(),
            out.len() == i,
            forall|j: int|
                0 <= j < i ==> expr_v(#[trigger] out@[j].0) == expr_v(v@[j].0) && stmts_v(out@[j].1@)
                    == stmts_v(v@[j].1@),
        decreases v.len() - i,
    {
        assert(decreases_to!(v => v@[i as int]));
        assert(decreases_to!(v@[i as int] => v@[i as int].1));
        let c = v[i].0.clone();
        let b = clone_stmts(&v[i].1);
        out.push((c, b));
        i += 1;
    }
    assert(branches_v(out@) =~= branches_v(v@));
    out
}

impl Clone for Declaration {
    fn clone(&self) -> (r: Self)
        ensures
            r@ == self@,
    {
        match self {
            Declaration::Net(s, x) => Declaration::Net(s.clone(), x.clone()),
            Declaration::Reg(s, x, i) => {
                let i2 = match i {
                    Some(e) => Some(e.clone()),
                    None => None,
                };
                Declaration::Reg(s.clone(), x.clone(), i2)
            },
            Declaration::Integer(x) => Declaration::Integer(x.clone()),
        }
    }
}

impl Clone for ContinuousAssign {
    fn clone(&self) -> (r: Self)
        ensures
            expr_v(r.0) == expr_v(self.0),
            expr_v(r.1) == expr_v(self.1),
    {
        ContinuousAssign(self.0.clone(), self.1.clone())
    }
}

impl Clone for ModuleInstantiation {
    fn clone(&self) -> (r: Self)
        ensures
            inst_v(r) == inst_v(*self),
    {
        let mut params: Vec<(String, usize)> = Vec::new();
        let mut i: usize = 0;
        while i < self.params.len()
            invariant
                i <= self.params.len(),
                params.len() == i,
                forall|j: int|
                    0 <= j < i ==> (#[trigger] params@[j]).0@ == self.params@[j].0@ && params@[j].1
                        == self.params@[j].1,
            decreases self.params.len() - i,
        {
            params.push((self.params[i].0.clone(), self.params[i].1));
            i += 1;
        }
        let mut conns: Vec<(String, Expression)> = Vec::new();
        let mut i: usize = 0;
        while i < self.port_connections.len()
            invariant
                i <= self.port_connections.len(),
                conns.len() == i,
                forall|j: int|
                    0 <= j < i ==> (#[trigger] conns@[j]).0@ == self.port_connections@[j].0@ && expr_v(
                        conns@[j].1,
                    ) == expr_v(self.port_connections@[j].1),
            decreases self.port_connections.len() - i,
        {
            conns.push((self.port_connections[i].0.clone(), self.port_connections[i].1.clone()));
            i += 1;
        }
        let r = ModuleInstantiation {
            module_name: self.module_name.clone(),
            inst_name: self.inst_name.clone(),
            params,
            port_connections: conns,
        };
        assert(inst_v(r).params =~= inst_v(*self).params);
        assert(inst_v(r).port_connections =~= inst_v(*self).port_connections);
        r
    }
}

impl Clone for ModuleItem {
    fn clone(&self) -> (r: Self)
        ensures
            r@ == self@,
        decreases self,
    {
        match self {
            ModuleItem::Declarations(d) => {
                let mut out: Vec<Declaration> = Vec::new();
                let mut i: usize = 0;
                while i < d.len()
                    invariant
                        i <= d.len(),
                        out.len() == i,
                        forall|j: int| 0 <= j < i ==> decl_v(#[trigger] out@[j]) == decl_v(d@[j]),
                    decreases d.len() - i,
                {
                    out.push(d[i].clone());
                    i += 1;
                }
                assert(decls_v(out@) =~= decls_v(d@));
                ModuleItem::Declarations(out)
            },
            ModuleItem::ContinuousAssigns(c) => {
                let mut out: Vec<ContinuousAssign> = Vec::new();
                let mut i: usize = 0;
                while i < c.len()
                    invariant
                        i <= c.len(),
                        out.len() == i,
                        forall|j: int|
                            0 <= j < i ==> expr_v((#[trigger] out@[j]).0) == expr_v(c@[j].0) && expr_v(
                                out@[j].1,
                            ) == expr_v(c@[j].1),
                    decreases c.len() - i,
                {
                    out.push(c[i].clone());
                    i += 1;
                }
                assert(conts_v(out@) =~= conts_v(c@));
                ModuleItem::ContinuousAssigns(out)
            },
            ModuleItem::ModuleInstantiation(m) => ModuleItem::ModuleInstantiation(m.clone()),
            ModuleItem::AlwaysConstruct(ev, st) => ModuleItem::AlwaysConstruct(ev.clone(), clone_stmts(st)),
            ModuleItem::Commented(b, a, items) => {
                let a2 = match a {
                    Some(x) => Some(x.clone()),
                    None => None,
                };
                ModuleItem::Commented(b.clone(), a2, clone_items(items))
            },
        }
    }
}

/// Copies module items.
pub fn clone_items(v: &Vec<ModuleItem>) -> (r: Vec<ModuleItem>)
    ensures
        items_v(r@) == items_v(v@),
    decreases v,
{
    let mut out: Vec<ModuleItem> = Vec::new();
    let mut i: usize = 0;
    while i < v.len()
        invariant
            i <= v.len(),
            out.len() == i,
            forall|j: int| 0 <= j < i ==> item_v(#[trigger] out@[j]) == item_v(v@[j]),
        decreases v.len() - i,
    {
        assert(decreases_to!(v => v@[i as int]));
        out.push(v[i].clone());
        i += 1;
    }
    assert(items_v(out@) =~= items_v(v@));
    out
}

impl Clone for PortDeclaration {
    fn clone(&self) -> (r: Self)
        ensures
            r@ == self@,
    {
        match self {
            PortDeclaration::Input(w, x) => PortDeclaration::Input(*w, x.clone()),
            PortDeclaration::Output(w, x) => PortDeclaration::Output(*w, x.clone()),
        }
    }
}

/// Copies port declarations.
pub fn clone_port_decls(v: &Vec<PortDeclaration>) -> (r: Vec<PortDeclaration>)
    ensures
        port_decls_v(r@) == port_decls_v(v@),
{
    let mut out: Vec<PortDeclaration> = Vec::new();
    let mut i: usize = 0;
    while i < v.len()
        invariant
            i <= v.len(),
            out.len() == i,
            forall|j: int| 0 <= j < i ==> port_decl_v(#[trigger] out@[j]) == port_decl_v(v@[j]),
        decreases v.len() - i,
    {
        out.push(v[i].clone());
        i += 1;
    }
    assert(port_decls_v(out@) =~= port_decls_v(v@));
    out
}

impl Clone for Module {
    fn clone(&self) -> (r: Self)
        ensures
            r@ == self@,
    {
        Module {
            name: self.name.clone(),
            port_decls: clone_port_decls(&self.port_decls),
            module_items: clone_items(&self.module_items),
        }
    }
}

} // verus!
