//! The scope tree of a trace header and the variables it declares.
use crate::header::{decl_views, DeclView, ReferenceIndex, VarDecl};
use crate::names::path_view;
use vstd::prelude::*;

verus! {

broadcast use {vstd::seq::axiom_seq_subrange_decreases, vstd::std_specs::vec::axiom_vec_decreases_to_view};

/// A variable as the header declares it.
pub struct Var {
    pub size: u32,
    pub code: u64,
    pub reference: String,
    pub index: Option<ReferenceIndex>,
}

/// A named scope and what it holds.
pub struct Scope {
    pub identifier: String,
    pub children: Vec<ScopeItem>,
}

/// An item of a scope.
pub enum ScopeItem {
    Scope(Scope),
    Var(Var),
    Comment(String),
}

/// The declarations of a sequence of items under the path `prefix`, in
/// header order, each with its full path.
pub open spec fn items_decls(items: Seq<ScopeItem>, prefix: Seq<Seq<char>>) -> Seq<DeclView>
    decreases items,
{
    if items.len() == 0 {
        Seq::empty()
    } else {
        let rest = items_decls(items.subrange(0, items.len() - 1), prefix);
        match items[items.len() - 1] {
            ScopeItem::Var(v) => rest.push(
                DeclView {
                    path: prefix.push(v.reference@),
                    code: v.code,
                    size: v.size,
                    index: v.index,
                },
            ),
            ScopeItem::Scope(s) => rest + items_decls(s.children@, prefix.push(s.identifier@)),
            ScopeItem::Comment(_) => rest,
        }
    }
}

/// The declarations a header's items give.
pub open spec fn header_decls(items: Seq<ScopeItem>) -> Seq<DeclView> {
    items_decls(items, Seq::empty())
}

/// Appends to `out` every variable under `items`, with its path below
/// `prefix`; `prefix` comes back as it was.
fn collect_vars(items: &Vec<ScopeItem>, prefix: &mut Vec<String>, out: &mut Vec<VarDecl>)
    ensures
        final(prefix)@ == old(prefix)@,
        decl_views(final(out)@) == decl_views(old(out)@)
            + items_decls(items@, path_view(old(prefix)@)),
    decreases items@,
{
    let ghost p0 = path_view(prefix@);
    let ghost o0 = decl_views(out@);
    let mut i: usize = 0;
    while i < items.len()
        invariant
            prefix@ == old(prefix)@,
            p0 == path_view(prefix@),
            i <= items@.len(),
            decl_views(out@) == o0 + items_decls(items@.subrange(0, i as int), p0),
        decreases items@.len() - i,
    {
        assert(items@.subrange(0, i as int) =~= items@.subrange(0, i as int + 1).subrange(0, i as int));
        let ghost before = decl_views(out@);
        match &items[i] {
            ScopeItem::Var(v) => {
                let mut path = prefix.clone();
                assert(path@ =~= prefix@);
                path.push(v.reference.clone());
                let d = VarDecl { path, code: v.code, size: v.size, index: v.index };
                out.push(d);
                assert(d@.path =~= p0.push(v.reference@));
                assert(decl_views(out@) =~= before.push(d@));
            },
            ScopeItem::Scope(s) => {
                prefix.push(s.identifier.clone());
                assert(path_view(prefix@) =~= p0.push(s.identifier@));
                assert(decreases_to!(items@ => s.children@)) by {
                    assert(decreases_to!(items@ => items@[i as int]));
                };
                collect_vars(&s.children, prefix, out);
                prefix.pop();
                assert(prefix@ =~= old(prefix)@);
            },
            ScopeItem::Comment(_) => {},
        }
        i += 1;
    }
    assert(items@.subrange(0, i as int) =~= items@);
}

/// Lists every variable of a header with its full path (scopes outermost
/// first, then the variable's own name), in header order.
pub fn enumerate_vars(items: &Vec<ScopeItem>) -> (r: Vec<VarDecl>)
    ensures
        decl_views(r@) == header_decls(items@),
{
    let mut prefix: Vec<String> = Vec::new();
    let mut out: Vec<VarDecl> = Vec::new();
    assert(path_view(prefix@) =~= Seq::<Seq<char>>::empty());
    collect_vars(items, &mut prefix, &mut out);
    assert(decl_views(out@) =~= header_decls(items@));
    out
}

} // verus!
