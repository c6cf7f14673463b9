//! Naming context: scopes and fresh identifiers for generated code.

use vstd::prelude::*;

use crate::utils::string::{join_strings, nat_to_decimal, seq_join, usize_to_string, join_two, join2};

verus! {

/// Scope.
#[derive(Debug, Clone)]
pub struct Scope {
    /// Prefix of the scope
    pub prefix: String,

    /// Integer index
    pub int_id: usize,

    /// Net, Reg index
    pub temp_id: usize,
}

impl Scope {
    /// Creates new scope.
    pub fn new(prefix: String) -> (r: Self)
        ensures
            r.prefix == prefix,
            r.int_id == 0,
            r.temp_id == 0,
    {
        Self { prefix, int_id: 0, temp_id: 0 }
    }
}

/// Context.
#[derive(Debug)]
pub struct Context {
    /// Scopes in the context, outermost first
    pub scopes: Vec<Scope>,

    /// Genvar index
    pub genvar_id: usize,
}

/// The prefixes of the scopes, outermost first.
pub open spec fn scope_prefixes(scopes: Seq<Scope>) -> Seq<Seq<char>> {
    scopes.map_values(|s: Scope| s.prefix@)
}

/// The prefix of the innermost scope: the scope prefixes joined by `_`, or none outside
/// any scope.
pub open spec fn prefix_spec(scopes: Seq<Scope>) -> Option<Seq<char>> {
    if scopes.len() == 0 {
        None
    } else {
        Some(seq_join(scope_prefixes(scopes), "_"@))
    }
}

/// An identifier made of a letter and a number.
pub open spec fn id_name(letter: char, n: nat) -> Seq<char> {
    seq![letter] + nat_to_decimal(n)
}

impl Context {
    /// Creates new context.
    pub fn new() -> (r: Self)
        ensures
            r.scopes@.len() == 0,
            r.genvar_id == 0,
    {
        Context { scopes: Vec::new(), genvar_id: 0 }
    }

    /// Enters scope with given scope name.
    pub fn enter_scope(&mut self, scope_name: String)
        ensures
            final(self).scopes@ == old(self).scopes@.push(Scope { prefix: scope_name, int_id: 0, temp_id: 0 }),
            final(self).genvar_id == old(self).genvar_id,
    {
        self.scopes.push(Scope::new(scope_name));
    }

    /// Leaves scope.
    pub fn leave_scope(&mut self)
        ensures
            old(self).scopes@.len() > 0 ==> final(self).scopes@ == old(self).scopes@.drop_last(),
            old(self).scopes@.len() == 0 ==> final(self).scopes@ == old(self).scopes@,
            final(self).genvar_id == old(self).genvar_id,
    {
        self.scopes.pop();
    }

    /// Returns prefix of the inner scope.
    pub fn get_prefix(&self) -> (r: Option<String>)
        ensures
            match r {
                Some(s) => prefix_spec(self.scopes@) == Some(s@),
                None => prefix_spec(self.scopes@) is None,
            },
    {
        if self.scopes.len() == 0 {
            None
        } else {
            let mut prefixes: Vec<String> = Vec::new();
            let mut k: usize = 0;
            while k < self.scopes.len()
                invariant
                    k <= self.scopes@.len(),
                    prefixes@.map_values(|s: String| s@) == scope_prefixes(self.scopes@).take(k as int),
                decreases self.scopes@.len() - k,
            {
                let ghost prev = prefixes@;
                let p = self.scopes[k].prefix.clone();
                prefixes.push(p);
                proof {
                    assert(p@ == self.scopes@[k as int].prefix@);
                    assert(prefixes@ =~= prev.push(p));
                    assert(prefixes@.map_values(|s: String| s@) =~= prev.map_values(|s: String| s@).push(p@));
                    assert(prefixes@.map_values(|s: String| s@) =~= scope_prefixes(self.scopes@).take(k as int + 1));
                }
                k = k + 1;
            }
            assert(scope_prefixes(self.scopes@).take(self.scopes@.len() as int) =~= scope_prefixes(self.scopes@));
            let r = join_strings(&prefixes, "_");
            Some(r)
        }
    }

    /// Allocates integer.
    pub fn alloc_int_id(&mut self) -> (r: String)
        requires
            old(self).scopes@.len() > 0,
            old(self).scopes@.last().int_id < usize::MAX,
        ensures
            r@ == id_name('i', old(self).scopes@.last().int_id as nat),
            final(self).scopes@ == old(self).scopes@.update(
                old(self).scopes@.len() - 1,
                Scope { int_id: (old(self).scopes@.last().int_id + 1) as usize, ..old(self).scopes@.last() },
            ),
            final(self).genvar_id == old(self).genvar_id,
    {
        let count = self.scopes.len();
        let mut last = self.scopes.pop().unwrap();
        let int_id = last.int_id;
        last.int_id = last.int_id + 1;
        self.scopes.push(last);
        proof {
            assert(self.scopes@ =~= old(self).scopes@.update(
                old(self).scopes@.len() - 1,
                Scope { int_id: (old(self).scopes@.last().int_id + 1) as usize, ..old(self).scopes@.last() },
            ));
        }
        let mut r = String::from_str("i");
        r.append(usize_to_string(int_id).as_str());
        proof {
            reveal_strlit("i");
            assert(r@ =~= id_name('i', int_id as nat));
        }
        r
    }

    /// Allocates integer, named after the prefix of the scopes.
    pub fn alloc_int_id_with_prefix(&mut self) -> (r: String)
        requires
            old(self).scopes@.len() > 0,
            old(self).scopes@.last().int_id < usize::MAX,
        ensures
            Some(r@) == join2("_"@, prefix_spec(old(self).scopes@), Some(id_name('i', old(self).scopes@.last().int_id as nat))),
            final(self).scopes@ == old(self).scopes@.update(
                old(self).scopes@.len() - 1,
                Scope { int_id: (old(self).scopes@.last().int_id + 1) as usize, ..old(self).scopes@.last() },
            ),
            final(self).genvar_id == old(self).genvar_id,
    {
        let prefix = self.get_prefix();
        let id = self.alloc_int_id();
        match join_two("_", prefix, Some(id)) {
            Some(r) => r,
            None => vstd::pervasive::unreached(),
        }
    }

    /// Allocates genvar.
    pub fn alloc_genvar_id(&mut self) -> (r: String)
        requires
            old(self).genvar_id < usize::MAX,
        ensures
            r@ == id_name('g', old(self).genvar_id as nat),
            final(self).genvar_id == old(self).genvar_id + 1,
            final(self).scopes@ == old(self).scopes@,
    {
        let genvar_id = self.genvar_id;
        self.genvar_id = self.genvar_id + 1;
        let mut r = String::from_str("g");
        r.append(usize_to_string(genvar_id).as_str());
        proof {
            reveal_strlit("g");
            assert(r@ =~= id_name('g', genvar_id as nat));
        }
        r
    }

    /// Allocates net or reg.
    pub fn alloc_temp_id(&mut self) -> (r: String)
        requires
            old(self).scopes@.len() > 0,
            old(self).scopes@.last().temp_id < usize::MAX,
        ensures
            r@ == id_name('t', old(self).scopes@.last().temp_id as nat),
            final(self).scopes@ == old(self).scopes@.update(
                old(self).scopes@.len() - 1,
                Scope { temp_id: (old(self).scopes@.last().temp_id + 1) as usize, ..old(self).scopes@.last() },
            ),
            final(self).genvar_id == old(self).genvar_id,
    {
        let mut last = self.scopes.pop().unwrap();
        let temp_id = last.temp_id;
        last.temp_id = last.temp_id + 1;
        self.scopes.push(last);
        proof {
            assert(self.scopes@ =~= old(self).scopes@.update(
                old(self).scopes@.len() - 1,
                Scope { temp_id: (old(self).scopes@.last().temp_id + 1) as usize, ..old(self).scopes@.last() },
            ));
        }
        let mut r = String::from_str("t");
        r.append(usize_to_string(temp_id).as_str());
        proof {
            reveal_strlit("t");
            assert(r@ =~= id_name('t', temp_id as nat));
        }
        r
    }

    /// Allocates net or reg, named after the prefix of the scopes.
    pub fn alloc_temp_id_with_prefix(&mut self) -> (r: String)
        requires
            old(self).scopes@.len() > 0,
            old(self).scopes@.last().temp_id < usize::MAX,
        ensures
            Some(r@) == join2("_"@, prefix_spec(old(self).scopes@), Some(id_name('t', old(self).scopes@.last().temp_id as nat))),
            final(self).scopes@ == old(self).scopes@.update(
                old(self).scopes@.len() - 1,
                Scope { temp_id: (old(self).scopes@.last().temp_id + 1) as usize, ..old(self).scopes@.last() },
            ),
            final(self).genvar_id == old(self).genvar_id,
    {
        let prefix = self.get_prefix();
        let id = self.alloc_temp_id();
        match join_two("_", prefix, Some(id)) {
            Some(r) => r,
            None => vstd::pervasive::unreached(),
        }
    }
}

/// Decimal representations have at least one digit, and one exactly below ten.
pub proof fn lemma_decimal_len(n: nat)
    ensures
        nat_to_decimal(n).len() >= 1,
        (nat_to_decimal(n).len() == 1) == (n < 10),
    decreases n,
{
    if n >= 10 {
        lemma_decimal_len(n / 10);
    }
}

/// Different digits have different characters.
pub proof fn lemma_digit_injective(d: nat, e: nat)
    requires
        d < 10,
        e < 10,
        crate::utils::string::digit_char(d) == crate::utils::string::digit_char(e),
    ensures
        d == e,
{
    assert((d + 48) as char as int == d + 48);
    assert((e + 48) as char as int == e + 48);
}

/// Decimal representation is injective.
pub proof fn lemma_decimal_injective(a: nat, b: nat)
    requires
        nat_to_decimal(a) == nat_to_decimal(b),
    ensures
        a == b,
    decreases a,
{
    lemma_decimal_len(a);
    lemma_decimal_len(b);
    if a < 10 && b < 10 {
        assert(nat_to_decimal(a) == seq![crate::utils::string::digit_char(a)]);
        assert(nat_to_decimal(b) == seq![crate::utils::string::digit_char(b)]);
        assert(nat_to_decimal(a)[0] == nat_to_decimal(b)[0]);
        assert(seq![crate::utils::string::digit_char(a)][0] == crate::utils::string::digit_char(a));
        assert(seq![crate::utils::string::digit_char(b)][0] == crate::utils::string::digit_char(b));
        lemma_digit_injective(a, b);
    } else if a >= 10 && b >= 10 {
        let da = nat_to_decimal(a);
        let db = nat_to_decimal(b);
        assert(da.last() == db.last());
        assert(da.drop_last() =~= nat_to_decimal(a / 10));
        assert(db.drop_last() =~= nat_to_decimal(b / 10));
        lemma_decimal_injective(a / 10, b / 10);
        assert(da.last() == crate::utils::string::digit_char(a % 10));
        assert(db.last() == crate::utils::string::digit_char(b % 10));
        lemma_digit_injective(a % 10, b % 10);
    }
}

/// Law: identifiers allocated with different counters differ.
pub proof fn lemma_ids_fresh(letter: char, a: nat, b: nat)
    requires
        a != b,
    ensures
        id_name(letter, a) != id_name(letter, b),
{
    if id_name(letter, a) == id_name(letter, b) {
        assert(id_name(letter, a).drop_first() =~= nat_to_decimal(a));
        assert(id_name(letter, b).drop_first() =~= nat_to_decimal(b));
        lemma_decimal_injective(a, b);
    }
}

/// Law: leaving a scope just entered restores the scopes.
pub proof fn lemma_enter_leave(scopes: Seq<Scope>, name: String)
    ensures
        scopes.push(Scope { prefix: name, int_id: 0, temp_id: 0 }).drop_last() == scopes,
{
    assert(scopes.push(Scope { prefix: name, int_id: 0, temp_id: 0 }).drop_last() =~= scopes);
}

} // verus!
