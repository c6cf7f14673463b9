//! Utility functions for Verilog IR.

pub mod replace;

use vstd::prelude::*;

use crate::vir::ir::{decl_name, item_v, items_v, port_decl_name, port_decl_v, DeclV, ItemV, Module, ModuleItem, ModuleV, PortDeclV};

verus! {

/// Names declared by a module item, in order: those of its declarations, and
/// those declared inside commented items.
pub open spec fn item_decls(it: ItemV) -> Seq<Seq<char>>
    decreases it,
{
    match it {
        ItemV::Declarations(d) => d.map_values(|x: DeclV| decl_name(x)),
        ItemV::Commented(_, _, items) => items_decls(items),
        _ => seq![],
    }
}

/// Names declared by module items, in order.
pub open spec fn items_decls(s: Seq<ItemV>) -> Seq<Seq<char>>
    decreases s,
{
    if s.len() == 0 {
        seq![]
    } else {
        items_decls(s.drop_last()) + item_decls(s.last())
    }
}

/// Names declared by a module: its ports, then the names declared by its items.
pub open spec fn module_decls(m: ModuleV) -> Seq<Seq<char>> {
    m.port_decls.map_values(|p: PortDeclV| port_decl_name(p)) + items_decls(m.module_items)
}

/// Views of a list of names.
pub open spec fn names_v(s: Seq<String>) -> Seq<Seq<char>> {
    s.map_values(|x: String| x@)
}

/// Appends the names of declarations in `item` to `out`.
fn push_item_decls(item: &ModuleItem, out: &mut Vec<String>)
    ensures
        names_v(final(out)@) == names_v(old(out)@) + item_decls(item@),
    decreases item,
{
    match item {
        ModuleItem::Declarations(decls) => {
            let ghost start = names_v(out@);
            let mut i: usize = 0;
            while i < decls.len()
                invariant
                    i <= decls.len(),
                    names_v(out@) == start + item_decls(item@).take(i as int),
                    item_decls(item@).len() == decls.len(),
                    *item == ModuleItem::Declarations(*decls),
                decreases decls.len() - i,
            {
                let name = decls[i].ident().to_string();
                let ghost before = out@;
                out.push(name);
                proof {
                    assert(item_decls(item@).take(i + 1) =~= item_decls(item@).take(i as int).push(name@));
                    assert(names_v(out@) =~= names_v(before).push(name@));
                }
                i += 1;
            }
            assert(item_decls(item@).take(decls.len() as int) =~= item_decls(item@));
        },
        ModuleItem::Commented(_, _, items) => {
            proof {
                assert(decreases_to!(item => item->Commented_2));
            }
            push_items_decls(items, out);
        },
        _ => {
            assert(names_v(out@) =~= names_v(out@) + seq![]);
        },
    }
}

/// Appends the names of declarations in `items` to `out`.
fn push_items_decls(items: &Vec<ModuleItem>, out: &mut Vec<String>)
    ensures
        names_v(final(out)@) == names_v(old(out)@) + items_decls(items_v(items@)),
    decreases items,
{
    let ghost start = names_v(out@);
    let mut i: usize = 0;
    while i < items.len()
        invariant
            i <= items.len(),
            names_v(out@) == start + items_decls(items_v(items@).take(i as int)),
        decreases items.len() - i,
    {
        assert(decreases_to!(items => items@[i as int]));
        push_item_decls(&items[i], out);
        proof {
            let t = items_v(items@).take(i + 1);
            assert(t.drop_last() =~= items_v(items@).take(i as int));
            assert(t.last() == item_v(items@[i as int]));
        }
        i += 1;
    }
    assert(items_v(items@).take(items.len() as int) =~= items_v(items@));
}

/// Names declared in a module item.
pub fn extract_decls_module_item(module_item: &ModuleItem) -> (r: Vec<String>)
    ensures
        names_v(r@) == item_decls(module_item@),
{
    let mut out: Vec<String> = Vec::new();
    push_item_decls(module_item, &mut out);
    assert(names_v(out@) =~= item_decls(module_item@));
    out
}

/// Names declared in a module: its ports first, then the declarations of its
/// items in order.
pub fn extract_decls(module: &Module) -> (r: Vec<String>)
    ensures
        names_v(r@) == module_decls(module@),
{
    let mut out: Vec<String> = Vec::new();
    let mut i: usize = 0;
    while i < module.port_decls.len()
        invariant
            i <= module.port_decls.len(),
            names_v(out@) == module@.port_decls.map_values(|p: PortDeclV| port_decl_name(p)).take(i as int),
        decreases module.port_decls.len() - i,
    {
        let name = module.port_decls[i].name();
        let ghost before = out@;
        out.push(name);
        assert(module@.port_decls[i as int] == port_decl_v(module.port_decls@[i as int]));
        assert(names_v(out@) =~= names_v(before).push(name@));
        assert(names_v(out@) =~= module@.port_decls.map_values(|p: PortDeclV| port_decl_name(p)).take(i + 1));
        i += 1;
    }
    push_items_decls(&module.module_items, &mut out);
    assert(module@.port_decls.map_values(|p: PortDeclV| port_decl_name(p)).take(i as int) =~= module@.port_decls.map_values(
        |p: PortDeclV| port_decl_name(p),
    ));
    out
}

} // verus!
