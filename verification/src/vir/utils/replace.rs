//! Renaming of identifiers.

use vstd::prelude::*;

use crate::vir::utils::{item_decls, items_decls, module_decls};

use crate::vir::ir::{
    branches_v, conts_v, decl_v, decls_v, expr_v, exprs_v, inst_v, item_v, items_v, port_decl_v,
    prim_v, range_v, stmt_v, stmts_v, Concatenation, ContinuousAssign, DeclV, Declaration, ExprV, Expression, InstV,
    ItemV, Module, ModuleInstantiation, ModuleItem, ModuleV, PortDeclV, PortDeclaration, PrimV, Primary, Range,
    RangeV, Statement, StmtV, port_decl_name,
};

verus! {

/// The map that a list of (old name, new name) pairs stands for: when a name
/// occurs twice, the later pair wins.
pub open spec fn pairs_map(s: Seq<(Seq<char>, Seq<char>)>) -> Map<Seq<char>, Seq<char>>
    decreases s.len(),
{
    if s.len() == 0 {
        Map::empty()
    } else {
        pairs_map(s.drop_last()).insert(s.last().0, s.last().1)
    }
}

/// Views of a list of renaming pairs.
pub open spec fn pairs_v(s: Seq<(String, String)>) -> Seq<(Seq<char>, Seq<char>)> {
    s.map_values(|p: (String, String)| (p.0@, p.1@))
}

/// The new name of `k`: its image under `m`, or `k` itself when `m` does not
/// rename it.
pub open spec fn rn(m: Map<Seq<char>, Seq<char>>, k: Seq<char>) -> Seq<char> {
    if m.dom().contains(k) {
        m[k]
    } else {
        k
    }
}

/// An expression with its identifiers renamed.
pub open spec fn expr_rep(e: ExprV, m: Map<Seq<char>, Seq<char>>) -> ExprV
    decreases e,
{
    match e {
        ExprV::Primary(p) => ExprV::Primary(prim_rep(p, m)),
        ExprV::Unary(op, p) => ExprV::Unary(op, prim_rep(p, m)),
        ExprV::Binary(l, op, r) => ExprV::Binary(Box::new(expr_rep(*l, m)), op, Box::new(expr_rep(*r, m))),
        ExprV::Conditional(c, t, f) => ExprV::Conditional(
            Box::new(expr_rep(*c, m)),
            Box::new(expr_rep(*t, m)),
            Box::new(expr_rep(*f, m)),
        ),
    }
}

/// A primary expression with its identifiers renamed.
pub open spec fn prim_rep(p: PrimV, m: Map<Seq<char>, Seq<char>>) -> PrimV
    decreases p,
{
    match p {
        PrimV::Number(s) => PrimV::Number(s),
        PrimV::Ident(x, r) => PrimV::Ident(
            rn(m, x),
            match r {
                Some(r) => Some(range_rep(r, m)),
                None => None,
            },
        ),
        PrimV::Concat(es) => PrimV::Concat(exprs_rep(es, m)),
        PrimV::MultiConcat(n, es) => PrimV::MultiConcat(n, exprs_rep(es, m)),
        PrimV::Mintypmax(e) => PrimV::Mintypmax(Box::new(expr_rep(*e, m))),
    }
}

/// A range with its identifiers renamed.
pub open spec fn range_rep(r: RangeV, m: Map<Seq<char>, Seq<char>>) -> RangeV
    decreases r,
{
    match r {
        RangeV::Index(e) => RangeV::Index(Box::new(expr_rep(*e, m))),
        RangeV::Range(b, o) => RangeV::Range(Box::new(expr_rep(*b, m)), Box::new(expr_rep(*o, m))),
    }
}

/// Expressions with their identifiers renamed.
pub open spec fn exprs_rep(s: Seq<ExprV>, m: Map<Seq<char>, Seq<char>>) -> Seq<ExprV>
    decreases s,
{
    Seq::new(
        s.len(),
        |i: int|
            if 0 <= i < s.len() {
                expr_rep(s[i], m)
            } else {
                ExprV::Primary(PrimV::Number(seq![]))
            },
    )
}

/// A statement with its identifiers renamed.
pub open spec fn stmt_rep(st: StmtV, m: Map<Seq<char>, Seq<char>>) -> StmtV
    decreases st,
{
    match st {
        StmtV::Blocking(l, r) => StmtV::Blocking(expr_rep(l, m), expr_rep(r, m)),
        StmtV::Conditional(b, e) => StmtV::Conditional(branches_rep(b, m), stmts_rep(e, m)),
        StmtV::Loop(x, c, b) => StmtV::Loop(rn(m, x), expr_rep(c, m), stmts_rep(b, m)),
        StmtV::Nonblocking(l, r) => StmtV::Nonblocking(expr_rep(l, m), expr_rep(r, m)),
        StmtV::Case(e, b, d) => StmtV::Case(expr_rep(e, m), branches_rep(b, m), stmts_rep(d, m)),
        StmtV::Display(f, a) => StmtV::Display(f, exprs_rep(a, m)),
        StmtV::Fatal => StmtV::Fatal,
    }
}

/// Statements with their identifiers renamed.
pub open spec fn stmts_rep(s: Seq<StmtV>, m: Map<Seq<char>, Seq<char>>) -> Seq<StmtV>
    decreases s,
{
    Seq::new(s.len(), |i: int| if 0 <= i < s.len() { stmt_rep(s[i], m) } else { StmtV::Fatal })
}

/// Guarded branches with their identifiers renamed.
pub open spec fn branches_rep(s: Seq<(ExprV, Seq<StmtV>)>, m: Map<Seq<char>, Seq<char>>) -> Seq<
    (ExprV, Seq<StmtV>),
>
    decreases s,
{
    Seq::new(
        s.len(),
        |i: int|
            if 0 <= i < s.len() {
                (expr_rep(s[i].0, m), stmts_rep(s[i].1, m))
            } else {
                (ExprV::Primary(PrimV::Number(seq![])), seq![])
            },
    )
}

/// A declaration with its name renamed.
pub open spec fn decl_rep(d: DeclV, m: Map<Seq<char>, Seq<char>>) -> DeclV {
    match d {
        DeclV::Net(s, x) => DeclV::Net(s, rn(m, x)),
        DeclV::Reg(s, x, i) => DeclV::Reg(
            s,
            rn(m, x),
            match i {
                Some(e) => Some(expr_rep(e, m)),
                None => None,
            },
        ),
        DeclV::Integer(x) => DeclV::Integer(rn(m, x)),
    }
}

/// A module instantiation with the identifiers of its connections renamed;
/// port names stay.
pub open spec fn inst_rep(i: InstV, m: Map<Seq<char>, Seq<char>>) -> InstV {
    InstV {
        port_connections: i.port_connections.map_values(
            |p: (Seq<char>, ExprV)| (p.0, expr_rep(p.1, m)),
        ),
        ..i
    }
}

/// A module item with its identifiers renamed.
pub open spec fn item_rep(it: ItemV, m: Map<Seq<char>, Seq<char>>) -> ItemV
    decreases it,
{
    match it {
        ItemV::Declarations(d) => ItemV::Declarations(d.map_values(|x: DeclV| decl_rep(x, m))),
        ItemV::ContinuousAssigns(c) => ItemV::ContinuousAssigns(
            c.map_values(|x: (ExprV, ExprV)| (expr_rep(x.0, m), expr_rep(x.1, m))),
        ),
        ItemV::ModuleInstantiation(i) => ItemV::ModuleInstantiation(inst_rep(i, m)),
        ItemV::AlwaysConstruct(ev, s) => ItemV::AlwaysConstruct(ev, stmts_rep(s, m)),
        ItemV::Commented(b, a, items) => ItemV::Commented(b, a, items_rep(items, m)),
    }
}

/// Module items with their identifiers renamed.
pub open spec fn items_rep(s: Seq<ItemV>, m: Map<Seq<char>, Seq<char>>) -> Seq<ItemV>
    decreases s,
{
    Seq::new(
        s.len(),
        |i: int| if 0 <= i < s.len() { item_rep(s[i], m) } else { ItemV::Declarations(seq![]) },
    )
}

/// A port declaration with its name renamed.
pub open spec fn port_decl_rep(p: PortDeclV, m: Map<Seq<char>, Seq<char>>) -> PortDeclV {
    match p {
        PortDeclV::Input(w, x) => PortDeclV::Input(w, rn(m, x)),
        PortDeclV::Output(w, x) => PortDeclV::Output(w, rn(m, x)),
    }
}

/// A module with its identifiers renamed; its name stays.
pub open spec fn module_rep(md: ModuleV, m: Map<Seq<char>, Seq<char>>) -> ModuleV {
    ModuleV {
        name: md.name,
        port_decls: md.port_decls.map_values(|p: PortDeclV| port_decl_rep(p, m)),
        module_items: items_rep(md.module_items, m),
    }
}

/// The map of a list of pairs gives each name the value of its last pair.
pub proof fn lemma_pairs_map(s: Seq<(Seq<char>, Seq<char>)>, k: Seq<char>)
    ensures
        pairs_map(s).dom().contains(k) <==> exists|j: int| 0 <= j < s.len() && s[j].0 == k,
        forall|j: int|
            0 <= j < s.len() && s[j].0 == k && (forall|l: int| j < l < s.len() ==> s[l].0 != k)
                ==> pairs_map(s)[k] == #[trigger] s[j].1,
    decreases s.len(),
{
    if s.len() > 0 {
        lemma_pairs_map(s.drop_last(), k);
        if s.last().0 != k {
            if exists|j: int| 0 <= j < s.len() && s[j].0 == k {
                let j = choose|j: int| 0 <= j < s.len() && s[j].0 == k;
                assert(j < s.len() - 1);
                assert(s.drop_last()[j].0 == k);
            }
            if pairs_map(s).dom().contains(k) {
                let j = choose|j: int| 0 <= j < s.len() - 1 && s.drop_last()[j].0 == k;
                assert(s[j].0 == k);
            }
            assert forall|j: int|
                0 <= j < s.len() && s[j].0 == k && (forall|l: int| j < l < s.len() ==> s[l].0 != k)
                    implies pairs_map(s)[k] == #[trigger] s[j].1 by {
                assert(j < s.len() - 1);
                assert(s.drop_last()[j] == s[j]);
                assert forall|l: int| j < l < s.len() - 1 implies s.drop_last()[l].0 != k by {
                    assert(s.drop_last()[l] == s[l]);
                }
            }
        } else {
            assert(s[s.len() - 1].0 == k);
        }
    }
}

/// The new name of `key` under the renaming list `replaces`.
pub fn replaced(replaces: &Vec<(String, String)>, key: &String) -> (r: String)
    ensures
        r@ == rn(pairs_map(pairs_v(replaces@)), key@),
{
    let ghost s = pairs_v(replaces@);
    let mut i: usize = replaces.len();
    while i > 0
        invariant
            i <= replaces.len(),
            s == pairs_v(replaces@),
            forall|l: int| i <= l < replaces.len() ==> s[l].0 != key@,
        decreases i,
    {
        if replaces[i - 1].0.eq(key) {
            proof {
                lemma_pairs_map(s, key@);
                assert(s[i - 1].0 == key@);
                assert(pairs_map(s)[key@] == s[i - 1].1);
                assert(s[i - 1].1 == replaces@[i - 1].1@);
            }
            return replaces[i - 1].1.clone();
        }
        i -= 1;
    }
    proof {
        lemma_pairs_map(s, key@);
        if pairs_map(s).dom().contains(key@) {
            let j = choose|j: int| 0 <= j < s.len() && s[j].0 == key@;
            assert(false);
        }
    }
    key.clone()
}

/// The map that a renaming list stands for.
pub open spec fn rmap(replaces: Seq<(String, String)>) -> Map<Seq<char>, Seq<char>> {
    pairs_map(pairs_v(replaces))
}

impl Expression {
    /// Renames the identifiers of the expression by `replaces`.
    pub fn replace(&self, replaces: &Vec<(String, String)>) -> (r: Expression)
        ensures
            r@ == expr_rep(self@, rmap(replaces@)),
        decreases self,
    {
        match self {
            Expression::Primary(p) => Expression::Primary(p.replace(replaces)),
            Expression::Unary(op, p) => Expression::Unary(*op, p.replace(replaces)),
            Expression::Binary(l, op, r) => {
                let l2 = (**l).replace(replaces);
                let r2 = (**r).replace(replaces);
                Expression::Binary(Box::new(l2), *op, Box::new(r2))
            },
            Expression::Conditional(c, t, f) => {
                let c2 = (**c).replace(replaces);
                let t2 = (**t).replace(replaces);
                let f2 = (**f).replace(replaces);
                Expression::Conditional(Box::new(c2), Box::new(t2), Box::new(f2))
            },
        }
    }
}

impl Primary {
    /// Renames the identifiers of the primary expression by `replaces`.
    pub fn replace(&self, replaces: &Vec<(String, String)>) -> (r: Primary)
        ensures
            prim_v(r) == prim_rep(prim_v(*self), rmap(replaces@)),
        decreases self,
    {
        match self {
            Primary::Number(s) => Primary::Number(s.clone()),
            Primary::HierarchicalIdentifier(x, r) => {
                let r2 = match r {
                    Some(r) => Some(r.replace(replaces)),
                    None => None,
                };
                Primary::HierarchicalIdentifier(replaced(replaces, x), r2)
            },
            Primary::Concatenation(c) => Primary::Concatenation(c.replace(replaces)),
            Primary::MultipleConcatenation(n, c) => Primary::MultipleConcatenation(*n, c.replace(replaces)),
            Primary::MintypmaxExpression(e) => Primary::MintypmaxExpression(Box::new((**e).replace(replaces))),
        }
    }
}

impl Range {
    /// Renames the identifiers of the range by `replaces`.
    pub fn replace(&self, replaces: &Vec<(String, String)>) -> (r: Range)
        ensures
            range_v(r) == range_rep(range_v(*self), rmap(replaces@)),
        decreases self,
    {
        match self {
            Range::Index(e) => Range::new_index((**e).replace(replaces)),
            Range::Range(b, o) => Range::new_range((**b).replace(replaces), (**o).replace(replaces)),
        }
    }
}

impl Concatenation {
    /// Renames the identifiers of the concatenation by `replaces`.
    pub fn replace(&self, replaces: &Vec<(String, String)>) -> (r: Concatenation)
        ensures
            exprs_v(r.exprs@) == exprs_rep(exprs_v(self.exprs@), rmap(replaces@)),
        decreases self,
    {
        Concatenation { exprs: replace_exprs(&self.exprs, replaces) }
    }
}

/// Renames the identifiers of expressions by `replaces`.
pub fn replace_exprs(v: &Vec<Expression>, replaces: &Vec<(String, String)>) -> (r: Vec<Expression>)
    ensures
        exprs_v(r@) == exprs_rep(exprs_v(v@), rmap(replaces@)),
    decreases v,
{
    let mut out: Vec<Expression> = Vec::new();
    let mut i: usize = 0;
    while i < v.len()
        invariant
            i <= v.len(),
            out.len() == i,
            forall|j: int|
                0 <= j < i ==> expr_v(#[trigger] out@[j]) == expr_rep(expr_v(v@[j]), rmap(replaces@)),
        decreases v.len() - i,
    {
        assert(decreases_to!(v => v@[i as int]));
        out.push(v[i].replace(replaces));
        i += 1;
    }
    assert(exprs_v(out@) =~= exprs_rep(exprs_v(v@), rmap(replaces@)));
    out
}

impl Statement {
    /// Renames the identifiers of the statement by `replaces`.
    pub fn replace(&self, replaces: &Vec<(String, String)>) -> (r: Statement)
        ensures
            r@ == stmt_rep(self@, rmap(replaces@)),
        decreases self,
    {
        match self {
            Statement::BlockingAssignment(l, r) => Statement::BlockingAssignment(
                l.replace(replaces),
                r.replace(replaces),
            ),
            Statement::Conditional(b, e) => Statement::Conditional(
                replace_branches(b, replaces),
                replace_stmts(e, replaces),
            ),
            Statement::Loop(x, c, b) => Statement::Loop(
                replaced(replaces, x),
                c.replace(replaces),
                replace_stmts(b, replaces),
            ),
            Statement::NonblockingAssignment(l, r) => Statement::NonblockingAssignment(
                l.replace(replaces),
                r.replace(replaces),
            ),
            Statement::Case(e, b, d) => Statement::Case(
                e.replace(replaces),
                replace_branches(b, replaces),
                replace_stmts(d, replaces),
            ),
            Statement::Display(f, a) => Statement::Display(f.clone(), replace_exprs(a, replaces)),
            Statement::Fatal => Statement::Fatal,
        }
    }
}

/// Renames the identifiers of statements by `replaces`.
pub fn replace_stmts(v: &Vec<Statement>, replaces: &Vec<(String, String)>) -> (r: Vec<Statement>)
    ensures
        stmts_v(r@) == stmts_rep(stmts_v(v@), rmap(replaces@)),
    decreases v,
{
    let mut out: Vec<Statement> = Vec::new();
    let mut i: usize = 0;
    while i < v.len()
        invariant
            i <= v.len(),
            out.len() == i,
            forall|j: int|
                0 <= j < i ==> stmt_v(#[trigger] out@[j]) == stmt_rep(stmt_v(v@[j]), rmap(replaces@)),
        decreases v.len() - i,
    {
        assert(decreases_to!(v => v@[i as int]));
        out.push(v[i].replace(replaces));
        i += 1;
    }
    assert(stmts_v(out@) =~= stmts_rep(stmts_v(v@), rmap(replaces@)));
    out
}

/// Renames the identifiers of guarded branches by `replaces`.
pub fn replace_branches(v: &Vec<(Expression, Vec<Statement>)>, replaces: &Vec<(String, String)>) -> (r: Vec<
    (Expression, Vec<Statement>),
>)
    ensures
        branches_v(r@) == branches_rep(branches_v(v@), rmap(replaces@)),
    decreases v,
{
    let mut out: Vec<(Expression, Vec<Statement>)> = Vec::new();
    let mut i: usize = 0;
    while i < v.len()
        invariant
            i <= v.len(),
            out.len() == i,
            forall|j: int|
                0 <= j < i ==> expr_v(#[trigger] out@[j].0) == expr_rep(expr_v(v@[j].0), rmap(replaces@))
                    && stmts_v(out@[j].1@) == stmts_rep(stmts_v(v@[j].1@), rmap(replaces@)),
        decreases v.len() - i,
    {
        assert(decreases_to!(v => v@[i as int]));
        assert(decreases_to!(v@[i as int] => v@[i as int].1));
        let c = v[i].0.replace(replaces);
        let b = replace_stmts(&v[i].1, replaces);
        out.push((c, b));
        i += 1;
    }
    assert(branches_v(out@) =~= branches_rep(branches_v(v@), rmap(replaces@)));
    out
}

impl Declaration {
    /// Renames the declared name (and the initial value) by `replaces`.
    pub fn replace(&self, replaces: &Vec<(String, String)>) -> (r: Declaration)
        ensures
            r@ == decl_rep(self@, rmap(replaces@)),
    {
        match self {
            Declaration::Net(shape, x) => Declaration::net(shape.clone(), replaced(replaces, x)),
            Declaration::Reg(shape, x, init) => {
                let init2 = match init {
                    Some(e) => Some(e.replace(replaces)),
                    None => None,
                };
                Declaration::Reg(shape.clone(), replaced(replaces, x), init2)
            },
            Declaration::Integer(x) => Declaration::integer(replaced(replaces, x)),
        }
    }
}

impl ContinuousAssign {
    /// Renames the identifiers of both sides by `replaces`.
    pub fn replace(&self, replaces: &Vec<(String, String)>) -> (r: ContinuousAssign)
        ensures
            expr_v(r.0) == expr_rep(expr_v(self.0), rmap(replaces@)),
            expr_v(r.1) == expr_rep(expr_v(self.1), rmap(replaces@)),
    {
        ContinuousAssign(self.0.replace(replaces), self.1.replace(replaces))
    }
}

impl ModuleInstantiation {
    /// Renames the identifiers of the connected expressions by `replaces`.
    pub fn replace(&self, replaces: &Vec<(String, String)>) -> (r: ModuleInstantiation)
        ensures
            inst_v(r) == inst_rep(inst_v(*self), rmap(replaces@)),
    {
        let mut conns: Vec<(String, Expression)> = Vec::new();
        let mut i: usize = 0;
        while i < self.port_connections.len()
            invariant
                i <= self.port_connections.len(),
                conns.len() == i,
                forall|j: int|
                    0 <= j < i ==> (#[trigger] conns@[j]).0@ == self.port_connections@[j].0@ && expr_v(
                        conns@[j].1,
                    ) == expr_rep(expr_v(self.port_connections@[j].1), rmap(replaces@)),
            decreases self.port_connections.len() - i,
        {
            conns.push((self.port_connections[i].0.clone(), self.port_connections[i].1.replace(replaces)));
            i += 1;
        }
        let mut c = self.clone();
        c.port_connections = conns;
        assert(inst_v(c).port_connections =~= inst_rep(inst_v(*self), rmap(replaces@)).port_connections);
        c
    }
}

impl ModuleItem {
    /// Renames the identifiers of the module item by `replaces`.
    pub fn replace(&self, replaces: &Vec<(String, String)>) -> (r: ModuleItem)
        ensures
            r@ == item_rep(self@, rmap(replaces@)),
        decreases self,
    {
        let ghost m = rmap(replaces@);
        match self {
            ModuleItem::Declarations(d) => {
                let mut out: Vec<Declaration> = Vec::new();
                let mut i: usize = 0;
                while i < d.len()
                    invariant
                        i <= d.len(),
                        out.len() == i,
                        m == rmap(replaces@),
                        forall|j: int| 0 <= j < i ==> decl_v(#[trigger] out@[j]) == decl_rep(decl_v(d@[j]), m),
                    decreases d.len() - i,
                {
                    out.push(d[i].replace(replaces));
                    i += 1;
                }
                assert(decls_v(out@) =~= decls_v(d@).map_values(|x: DeclV| decl_rep(x, m)));
                ModuleItem::Declarations(out)
            },
            ModuleItem::ContinuousAssigns(c) => {
                let mut out: Vec<ContinuousAssign> = Vec::new();
                let mut i: usize = 0;
                while i < c.len()
                    invariant
                        i <= c.len(),
                        out.len() == i,
                        m == rmap(replaces@),
                        forall|j: int|
                            0 <= j < i ==> expr_v((#[trigger] out@[j]).0) == expr_rep(expr_v(c@[j].0), m)
                                && expr_v(out@[j].1) == expr_rep(expr_v(c@[j].1), m),
                    decreases c.len() - i,
                {
                    out.push(c[i].replace(replaces));
                    i += 1;
                }
                assert(conts_v(out@) =~= conts_v(c@).map_values(
                    |x: (ExprV, ExprV)| (expr_rep(x.0, m), expr_rep(x.1, m)),
                ));
                ModuleItem::ContinuousAssigns(out)
            },
            ModuleItem::ModuleInstantiation(inst) => ModuleItem::ModuleInstantiation(inst.replace(replaces)),
            ModuleItem::AlwaysConstruct(ev, st) => ModuleItem::AlwaysConstruct(
                ev.clone(),
                replace_stmts(st, replaces),
            ),
            ModuleItem::Commented(b, a, items) => {
                let a2 = match a {
                    Some(x) => Some(x.clone()),
                    None => None,
                };
                ModuleItem::Commented(b.clone(), a2, replace_items(items, replaces))
            },
        }
    }
}

/// Renames the identifiers of module items by `replaces`.
pub fn replace_items(v: &Vec<ModuleItem>, replaces: &Vec<(String, String)>) -> (r: Vec<ModuleItem>)
    ensures
        items_v(r@) == items_rep(items_v(v@), rmap(replaces@)),
    decreases v,
{
    let mut out: Vec<ModuleItem> = Vec::new();
    let mut i: usize = 0;
    while i < v.len()
        invariant
            i <= v.len(),
            out.len() == i,
            forall|j: int|
                0 <= j < i ==> item_v(#[trigger] out@[j]) == item_rep(item_v(v@[j]), rmap(replaces@)),
        decreases v.len() - i,
    {
        assert(decreases_to!(v => v@[i as int]));
        out.push(v[i].replace(replaces));
        i += 1;
    }
    assert(items_v(out@) =~= items_rep(items_v(v@), rmap(replaces@)));
    out
}

impl PortDeclaration {
    /// Renames the declared port by `replaces`.
    pub fn replace(&self, replaces: &Vec<(String, String)>) -> (r: PortDeclaration)
        ensures
            r@ == port_decl_rep(self@, rmap(replaces@)),
    {
        match self {
            PortDeclaration::Input(w, x) => PortDeclaration::input(*w, replaced(replaces, x)),
            PortDeclaration::Output(w, x) => PortDeclaration::output(*w, replaced(replaces, x)),
        }
    }
}

impl Module {
    /// Renames the identifiers of the module by `replaces`; the module's name
    /// stays.
    pub fn replace(&self, replaces: &Vec<(String, String)>) -> (r: Module)
        ensures
            r@ == module_rep(self@, rmap(replaces@)),
    {
        let ghost m = rmap(replaces@);
        let mut ports: Vec<PortDeclaration> = Vec::new();
        let mut i: usize = 0;
        while i < self.port_decls.len()
            invariant
                i <= self.port_decls.len(),
                ports.len() == i,
                m == rmap(replaces@),
                forall|j: int|
                    0 <= j < i ==> port_decl_v(#[trigger] ports@[j]) == port_decl_rep(
                        port_decl_v(self.port_decls@[j]),
                        m,
                    ),
            decreases self.port_decls.len() - i,
        {
            ports.push(self.port_decls[i].replace(replaces));
            i += 1;
        }
        let r = Module {
            name: self.name.clone(),
            port_decls: ports,
            module_items: replace_items(&self.module_items, replaces),
        };
        assert(r@.port_decls =~= module_rep(self@, m).port_decls);
        r
    }
}

/// Renaming by the empty map leaves an expression unchanged.
pub proof fn lemma_expr_rep_empty(e: ExprV)
    ensures
        expr_rep(e, Map::empty()) == e,
    decreases e,
{
    match e {
        ExprV::Primary(p) => lemma_prim_rep_empty(p),
        ExprV::Unary(_, p) => lemma_prim_rep_empty(p),
        ExprV::Binary(l, _, r) => {
            lemma_expr_rep_empty(*l);
            lemma_expr_rep_empty(*r);
        },
        ExprV::Conditional(c, t, f) => {
            lemma_expr_rep_empty(*c);
            lemma_expr_rep_empty(*t);
            lemma_expr_rep_empty(*f);
        },
    }
}

/// Renaming by the empty map leaves a primary expression unchanged.
pub proof fn lemma_prim_rep_empty(p: PrimV)
    ensures
        prim_rep(p, Map::empty()) == p,
    decreases p,
{
    match p {
        PrimV::Number(_) => {},
        PrimV::Ident(_, r) => {
            if let Some(r) = r {
                lemma_range_rep_empty(r);
            }
        },
        PrimV::Concat(es) => lemma_exprs_rep_empty(es),
        PrimV::MultiConcat(_, es) => lemma_exprs_rep_empty(es),
        PrimV::Mintypmax(e) => lemma_expr_rep_empty(*e),
    }
}

/// Renaming by the empty map leaves a range unchanged.
pub proof fn lemma_range_rep_empty(r: RangeV)
    ensures
        range_rep(r, Map::empty()) == r,
    decreases r,
{
    match r {
        RangeV::Index(e) => lemma_expr_rep_empty(*e),
        RangeV::Range(b, o) => {
            lemma_expr_rep_empty(*b);
            lemma_expr_rep_empty(*o);
        },
    }
}

/// Renaming by the empty map leaves expressions unchanged.
pub proof fn lemma_exprs_rep_empty(s: Seq<ExprV>)
    ensures
        exprs_rep(s, Map::empty()) == s,
    decreases s,
{
    assert forall|i: int| 0 <= i < s.len() implies exprs_rep(s, Map::empty())[i] == s[i] by {
        lemma_expr_rep_empty(s[i]);
    }
    assert(exprs_rep(s, Map::empty()) =~= s);
}

/// Renaming by the empty map leaves a statement unchanged.
pub proof fn lemma_stmt_rep_empty(st: StmtV)
    ensures
        stmt_rep(st, Map::empty()) == st,
    decreases st,
{
    match st {
        StmtV::Blocking(l, r) => {
            lemma_expr_rep_empty(l);
            lemma_expr_rep_empty(r);
        },
        StmtV::Conditional(b, e) => {
            lemma_branches_rep_empty(b);
            lemma_stmts_rep_empty(e);
        },
        StmtV::Loop(_, c, b) => {
            lemma_expr_rep_empty(c);
            lemma_stmts_rep_empty(b);
        },
        StmtV::Nonblocking(l, r) => {
            lemma_expr_rep_empty(l);
            lemma_expr_rep_empty(r);
        },
        StmtV::Case(e, b, d) => {
            lemma_expr_rep_empty(e);
            lemma_branches_rep_empty(b);
            lemma_stmts_rep_empty(d);
        },
        StmtV::Display(_, a) => lemma_exprs_rep_empty(a),
        StmtV::Fatal => {},
    }
}

/// Renaming by the empty map leaves statements unchanged.
pub proof fn lemma_stmts_rep_empty(s: Seq<StmtV>)
    ensures
        stmts_rep(s, Map::empty()) == s,
    decreases s,
{
    assert forall|i: int| 0 <= i < s.len() implies stmts_rep(s, Map::empty())[i] == s[i] by {
        lemma_stmt_rep_empty(s[i]);
    }
    assert(stmts_rep(s, Map::empty()) =~= s);
}

/// Renaming by the empty map leaves guarded branches unchanged.
pub proof fn lemma_branches_rep_empty(s: Seq<(ExprV, Seq<StmtV>)>)
    ensures
        branches_rep(s, Map::empty()) == s,
    decreases s,
{
    assert forall|i: int| 0 <= i < s.len() implies branches_rep(s, Map::empty())[i] == s[i] by {
        lemma_expr_rep_empty(s[i].0);
        lemma_stmts_rep_empty(s[i].1);
    }
    assert(branches_rep(s, Map::empty()) =~= s);
}

/// Renaming by the empty map leaves a module item unchanged.
pub proof fn lemma_item_rep_empty(it: ItemV)
    ensures
        item_rep(it, Map::empty()) == it,
    decreases it,
{
    let m = Map::<Seq<char>, Seq<char>>::empty();
    match it {
        ItemV::Declarations(d) => {
            assert forall|i: int| 0 <= i < d.len() implies decl_rep(d[i], m) == d[i] by {
                if let DeclV::Reg(_, _, Some(e)) = d[i] {
                    lemma_expr_rep_empty(e);
                }
            }
            assert(d.map_values(|x: DeclV| decl_rep(x, m)) =~= d);
        },
        ItemV::ContinuousAssigns(c) => {
            assert forall|i: int| 0 <= i < c.len() implies (expr_rep(c[i].0, m), expr_rep(c[i].1, m)) == c[i] by {
                lemma_expr_rep_empty(c[i].0);
                lemma_expr_rep_empty(c[i].1);
            }
            assert(c.map_values(|x: (ExprV, ExprV)| (expr_rep(x.0, m), expr_rep(x.1, m))) =~= c);
        },
        ItemV::ModuleInstantiation(inst) => {
            let pc = inst.port_connections;
            assert forall|i: int| 0 <= i < pc.len() implies (pc[i].0, expr_rep(pc[i].1, m)) == pc[i] by {
                lemma_expr_rep_empty(pc[i].1);
            }
            assert(pc.map_values(|p: (Seq<char>, ExprV)| (p.0, expr_rep(p.1, m))) =~= pc);
        },
        ItemV::AlwaysConstruct(_, s) => lemma_stmts_rep_empty(s),
        ItemV::Commented(_, _, items) => lemma_items_rep_empty(items),
    }
}

/// Renaming by the empty map leaves module items unchanged.
pub proof fn lemma_items_rep_empty(s: Seq<ItemV>)
    ensures
        items_rep(s, Map::empty()) == s,
    decreases s,
{
    assert forall|i: int| 0 <= i < s.len() implies items_rep(s, Map::empty())[i] == s[i] by {
        lemma_item_rep_empty(s[i]);
    }
    assert(items_rep(s, Map::empty()) =~= s);
}

/// Renaming by an empty list changes nothing in a module.
pub proof fn lemma_replace_empty(md: ModuleV)
    ensures
        module_rep(md, rmap(seq![])) == md,
{
    let m = Map::<Seq<char>, Seq<char>>::empty();
    assert(pairs_v(seq![]) =~= seq![]);
    assert(rmap(seq![]) == m);
    lemma_items_rep_empty(md.module_items);
    assert(md.port_decls.map_values(|p: PortDeclV| port_decl_rep(p, m)) =~= md.port_decls);
}

/// The names declared by a renamed module item are the renamed names it
/// declared.
pub proof fn lemma_item_decls_rep(it: ItemV, m: Map<Seq<char>, Seq<char>>)
    ensures
        item_decls(item_rep(it, m)) == item_decls(it).map_values(|x: Seq<char>| rn(m, x)),
    decreases it,
{
    match it {
        ItemV::Declarations(d) => {
            assert(item_decls(item_rep(it, m)) =~= item_decls(it).map_values(|x: Seq<char>| rn(m, x)));
        },
        ItemV::Commented(_, _, items) => lemma_items_decls_rep(items, m),
        _ => {
            assert(item_decls(item_rep(it, m)) =~= item_decls(it).map_values(|x: Seq<char>| rn(m, x)));
        },
    }
}

/// The names declared by renamed module items are the renamed names they
/// declared.
pub proof fn lemma_items_decls_rep(s: Seq<ItemV>, m: Map<Seq<char>, Seq<char>>)
    ensures
        items_decls(items_rep(s, m)) == items_decls(s).map_values(|x: Seq<char>| rn(m, x)),
    decreases s,
{
    if s.len() > 0 {
        let r = items_rep(s, m);
        assert(r.drop_last() =~= items_rep(s.drop_last(), m));
        assert(r.last() == item_rep(s.last(), m));
        lemma_items_decls_rep(s.drop_last(), m);
        lemma_item_decls_rep(s.last(), m);
        assert(items_decls(r) =~= items_decls(s).map_values(|x: Seq<char>| rn(m, x)));
    } else {
        assert(items_decls(items_rep(s, m)) =~= items_decls(s).map_values(|x: Seq<char>| rn(m, x)));
    }
}

/// Renaming a module renames each name it declares, in place: the declared
/// names of the result are the images of the declared names of the input.
pub proof fn lemma_replace_decls(md: ModuleV, m: Map<Seq<char>, Seq<char>>)
    ensures
        module_decls(module_rep(md, m)) == module_decls(md).map_values(|x: Seq<char>| rn(m, x)),
{
    lemma_items_decls_rep(md.module_items, m);
    let ports = md.port_decls.map_values(|p: PortDeclV| port_decl_name(p));
    let ports2 = module_rep(md, m).port_decls.map_values(|p: PortDeclV| port_decl_name(p));
    assert(ports2 =~= ports.map_values(|x: Seq<char>| rn(m, x)));
    assert(module_decls(module_rep(md, m)) =~= module_decls(md).map_values(|x: Seq<char>| rn(m, x)));
}

/// Every identifier that occurs in an expression, those inside ranges included, in order.
pub open spec fn expr_idents(e: ExprV) -> Seq<Seq<char>>
    decreases e,
{
    match e {
        ExprV::Primary(p) => prim_idents(p),
        ExprV::Unary(_, p) => prim_idents(p),
        ExprV::Binary(l, _, r) => expr_idents(*l) + expr_idents(*r),
        ExprV::Conditional(c, t, f) => expr_idents(*c) + expr_idents(*t) + expr_idents(*f),
    }
}

/// Every identifier that occurs in a primary expression, in order: an indexed identifier
/// comes before those of its index.
pub open spec fn prim_idents(p: PrimV) -> Seq<Seq<char>>
    decreases p,
{
    match p {
        PrimV::Number(_) => seq![],
        PrimV::Ident(x, r) => seq![x] + match r {
            Some(r) => range_idents(r),
            None => seq![],
        },
        PrimV::Concat(es) => exprs_idents(es),
        PrimV::MultiConcat(_, es) => exprs_idents(es),
        PrimV::Mintypmax(e) => expr_idents(*e),
    }
}

/// Every identifier that occurs in a range, in order.
pub open spec fn range_idents(r: RangeV) -> Seq<Seq<char>>
    decreases r,
{
    match r {
        RangeV::Index(e) => expr_idents(*e),
        RangeV::Range(b, o) => expr_idents(*b) + expr_idents(*o),
    }
}

/// Every identifier that occurs in expressions, in order.
pub open spec fn exprs_idents(s: Seq<ExprV>) -> Seq<Seq<char>>
    decreases s,
{
    if s.len() == 0 {
        seq![]
    } else {
        exprs_idents(s.drop_last()) + expr_idents(s.last())
    }
}

/// Each name of `s` renamed by `m`.
pub open spec fn renamed_all(s: Seq<Seq<char>>, m: Map<Seq<char>, Seq<char>>) -> Seq<Seq<char>> {
    s.map_values(|x: Seq<char>| rn(m, x))
}

/// Renaming names one by one distributes over concatenation.
proof fn lemma_renamed_all_add(a: Seq<Seq<char>>, b: Seq<Seq<char>>, m: Map<Seq<char>, Seq<char>>)
    ensures
        renamed_all(a + b, m) == renamed_all(a, m) + renamed_all(b, m),
{
    assert(renamed_all(a + b, m) =~= renamed_all(a, m) + renamed_all(b, m));
}

/// Law: renaming reaches every identifier of an expression, those inside the ranges of
/// indexed identifiers included: the identifiers of the renamed expression are those of
/// the expression, each renamed, in the same order.
pub proof fn lemma_expr_rep_idents(e: ExprV, m: Map<Seq<char>, Seq<char>>)
    ensures
        expr_idents(expr_rep(e, m)) == renamed_all(expr_idents(e), m),
    decreases e,
{
    match e {
        ExprV::Primary(p) => lemma_prim_rep_idents(p, m),
        ExprV::Unary(_, p) => lemma_prim_rep_idents(p, m),
        ExprV::Binary(l, _, r) => {
            lemma_expr_rep_idents(*l, m);
            lemma_expr_rep_idents(*r, m);
            lemma_renamed_all_add(expr_idents(*l), expr_idents(*r), m);
        },
        ExprV::Conditional(c, t, f) => {
            lemma_expr_rep_idents(*c, m);
            lemma_expr_rep_idents(*t, m);
            lemma_expr_rep_idents(*f, m);
            lemma_renamed_all_add(expr_idents(*c), expr_idents(*t), m);
            lemma_renamed_all_add(expr_idents(*c) + expr_idents(*t), expr_idents(*f), m);
        },
    }
}

/// Renaming reaches every identifier of a primary expression.
pub proof fn lemma_prim_rep_idents(p: PrimV, m: Map<Seq<char>, Seq<char>>)
    ensures
        prim_idents(prim_rep(p, m)) == renamed_all(prim_idents(p), m),
    decreases p,
{
    match p {
        PrimV::Number(_) => {
            assert(renamed_all(seq![], m) =~= seq![]);
        },
        PrimV::Ident(x, r) => {
            match r {
                Some(r) => {
                    lemma_range_rep_idents(r, m);
                    lemma_renamed_all_add(seq![x], range_idents(r), m);
                },
                None => {},
            }
            assert(renamed_all(seq![x], m) =~= seq![rn(m, x)]);
            assert(renamed_all(Seq::<Seq<char>>::empty(), m) =~= Seq::<Seq<char>>::empty());
            assert(seq![x] + Seq::<Seq<char>>::empty() =~= seq![x]);
            assert(seq![rn(m, x)] + Seq::<Seq<char>>::empty() =~= seq![rn(m, x)]);
        },
        PrimV::Concat(es) => lemma_exprs_rep_idents(es, m),
        PrimV::MultiConcat(_, es) => lemma_exprs_rep_idents(es, m),
        PrimV::Mintypmax(e) => lemma_expr_rep_idents(*e, m),
    }
}

/// Renaming reaches every identifier of a range.
pub proof fn lemma_range_rep_idents(r: RangeV, m: Map<Seq<char>, Seq<char>>)
    ensures
        range_idents(range_rep(r, m)) == renamed_all(range_idents(r), m),
    decreases r,
{
    match r {
        RangeV::Index(e) => lemma_expr_rep_idents(*e, m),
        RangeV::Range(b, o) => {
            lemma_expr_rep_idents(*b, m);
            lemma_expr_rep_idents(*o, m);
            lemma_renamed_all_add(expr_idents(*b), expr_idents(*o), m);
        },
    }
}

/// Renaming reaches every identifier of expressions.
pub proof fn lemma_exprs_rep_idents(s: Seq<ExprV>, m: Map<Seq<char>, Seq<char>>)
    ensures
        exprs_idents(exprs_rep(s, m)) == renamed_all(exprs_idents(s), m),
    decreases s,
{
    if s.len() == 0 {
        assert(exprs_rep(s, m) =~= Seq::<ExprV>::empty());
        assert(renamed_all(seq![], m) =~= seq![]);
    } else {
        let t = exprs_rep(s, m);
        assert(t.drop_last() =~= exprs_rep(s.drop_last(), m));
        assert(t.last() == expr_rep(s.last(), m));
        lemma_exprs_rep_idents(s.drop_last(), m);
        lemma_expr_rep_idents(s.last(), m);
        lemma_renamed_all_add(exprs_idents(s.drop_last()), expr_idents(s.last()), m);
    }
}

} // verus!
