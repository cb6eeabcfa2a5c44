//! The header's scope tree and the flat list of variables it declares.

use vstd::prelude::*;

verus! {

/// The kind of a scope in the header.
#[derive(Clone, Copy, Debug, PartialEq, Eq, Structural)]
pub enum ScopeKind {
    Module,
    Task,
    Function,
    Begin,
    Fork,
    /// A kind this library knows nothing of.
    Other,
}

/// The declared type of a variable, as far as tracking goes: registers and
/// wires are tracked, nothing else is.
#[derive(Clone, Copy, Debug, PartialEq, Eq, Structural)]
pub enum VarKind {
    Reg,
    Wire,
    /// Any other declared type, such as a parameter or an integer.
    Other,
}

/// A variable declaration.
#[derive(Debug, PartialEq, Eq)]
pub struct Var {
    /// The declared type.
    pub var_type: VarKind,
    /// The declared width in bits.
    pub size: u32,
    /// The short identifier code that value changes refer to.
    pub code: String,
    /// The name of the variable within its scope.
    pub reference: String,
}

/// What a variable declaration stands for.
pub struct VarView {
    pub var_type: VarKind,
    pub size: u32,
    pub code: Seq<char>,
    pub reference: Seq<char>,
}

impl View for Var {
    type V = VarView;

    open spec fn view(&self) -> VarView {
        VarView {
            var_type: self.var_type,
            size: self.size,
            code: self.code@,
            reference: self.reference@,
        }
    }
}

impl Clone for Var {
    fn clone(&self) -> (copy: Var)
        ensures
            copy@ == self@,
    {
        Var {
            var_type: self.var_type,
            size: self.size,
            code: self.code.clone(),
            reference: self.reference.clone(),
        }
    }
}

/// A named scope with the items declared in it.
#[derive(Debug, PartialEq, Eq)]
pub struct Scope {
    pub scope_type: ScopeKind,
    pub identifier: String,
    pub items: Vec<HeaderItem>,
}

/// An item of the header: at top level or inside a scope.
#[derive(Debug, PartialEq, Eq)]
pub enum HeaderItem {
    Scope(Scope),
    Var(Var),
    Comment(String),
    /// An item of a kind this library knows nothing of.
    Other,
}

/// What a scope stands for.
pub struct ScopeView {
    pub scope_type: ScopeKind,
    pub identifier: Seq<char>,
    pub items: Seq<HeaderItemView>,
}

/// What a header item stands for.
pub enum HeaderItemView {
    Scope(ScopeView),
    Var(VarView),
    Comment(Seq<char>),
    Other,
}

/// What a header item stands for, by descent through the scopes.
pub open spec fn item_view(item: HeaderItem) -> HeaderItemView
    decreases item,
{
    match item {
        HeaderItem::Scope(scope) => HeaderItemView::Scope(
            ScopeView {
                scope_type: scope.scope_type,
                identifier: scope.identifier@,
                items: Seq::new(
                    scope.items@.len(),
                    |i: int|
                        if 0 <= i < scope.items@.len() {
                            item_view(scope.items@[i])
                        } else {
                            HeaderItemView::Other
                        },
                ),
            },
        ),
        HeaderItem::Var(var) => HeaderItemView::Var(var@),
        HeaderItem::Comment(text) => HeaderItemView::Comment(text@),
        HeaderItem::Other => HeaderItemView::Other,
    }
}

/// What a list of header items stands for.
pub open spec fn items_view(items: Seq<HeaderItem>) -> Seq<HeaderItemView> {
    Seq::new(items.len(), |i: int| item_view(items[i]))
}

impl View for HeaderItem {
    type V = HeaderItemView;

    open spec fn view(&self) -> HeaderItemView {
        item_view(*self)
    }
}

/// A variable together with the scopes that lead to it, outermost first.
#[derive(Debug, PartialEq, Eq)]
pub struct ScopedVar {
    pub scopes: Vec<(ScopeKind, String)>,
    pub var: Var,
}

/// What a scoped variable stands for.
pub struct ScopedVarView {
    pub scopes: Seq<(ScopeKind, Seq<char>)>,
    pub var: VarView,
}

/// What a stack of scopes stands for.
pub open spec fn stack_view(stack: Seq<(ScopeKind, String)>) -> Seq<(ScopeKind, Seq<char>)> {
    Seq::new(stack.len(), |i: int| (stack[i].0, stack[i].1@))
}

impl View for ScopedVar {
    type V = ScopedVarView;

    open spec fn view(&self) -> ScopedVarView {
        ScopedVarView { scopes: stack_view(self.scopes@), var: self.var@ }
    }
}

/// What a list of scoped variables stands for.
pub open spec fn vars_view(vars: Seq<ScopedVar>) -> Seq<ScopedVarView> {
    Seq::new(vars.len(), |i: int| vars[i]@)
}

/// The variables that one header item declares under the scopes in `stack`,
/// depth first and in declaration order.
pub open spec fn flatten_item(item: HeaderItemView, stack: Seq<(ScopeKind, Seq<char>)>) -> Seq<
    ScopedVarView,
>
    decreases item, 0nat,
{
    match item {
        HeaderItemView::Var(var) => seq![ScopedVarView { scopes: stack, var }],
        HeaderItemView::Scope(scope) => flatten_from(
            scope.items,
            0,
            stack.push((scope.scope_type, scope.identifier)),
        ),
        _ => Seq::empty(),
    }
}

/// The variables that the items from position `from` on declare under the
/// scopes in `stack`.
pub open spec fn flatten_from(
    items: Seq<HeaderItemView>,
    from: int,
    stack: Seq<(ScopeKind, Seq<char>)>,
) -> Seq<ScopedVarView>
    decreases items, items.len() - from,
{
    if 0 <= from < items.len() {
        flatten_item(items[from], stack) + flatten_from(items, from + 1, stack)
    } else {
        Seq::empty()
    }
}

/// The variables that a header declares, depth first and in declaration order.
pub open spec fn flatten(items: Seq<HeaderItemView>) -> Seq<ScopedVarView> {
    flatten_from(items, 0, Seq::empty())
}

/// A copy of a stack of scopes.
fn copy_stack(stack: &Vec<(ScopeKind, String)>) -> (copy: Vec<(ScopeKind, String)>)
    ensures
        stack_view(copy@) == stack_view(stack@),
{
    let mut copy: Vec<(ScopeKind, String)> = Vec::new();
    let mut i: usize = 0;
    while i < stack.len()
        invariant
            i <= stack@.len(),
            copy@.len() == i,
            forall|k: int|
                0 <= k < i ==> copy@[k].0 == stack@[k].0 && copy@[k].1@ == stack@[k].1@,
        decreases stack@.len() - i,
    {
        copy.push((stack[i].0, stack[i].1.clone()));
        i = i + 1;
    }
    assert(stack_view(copy@) =~= stack_view(stack@));
    copy
}

impl Clone for ScopedVar {
    fn clone(&self) -> (copy: ScopedVar)
        ensures
            copy@ == self@,
    {
        ScopedVar { scopes: copy_stack(&self.scopes), var: self.var.clone() }
    }
}

/// Appends to `vars` the variables that `item` declares under the scopes in
/// `stack`.
fn add_scopes(vars: &mut Vec<ScopedVar>, stack: &Vec<(ScopeKind, String)>, item: &HeaderItem)
    ensures
        vars_view(final(vars)@) == vars_view(old(vars)@) + flatten_item(
            item@,
            stack_view(stack@),
        ),
    decreases item,
{
    let ghost before = vars_view(vars@);
    match item {
        HeaderItem::Var(var) => {
            vars.push(ScopedVar { scopes: copy_stack(stack), var: var.clone() });
            assert(vars_view(vars@) =~= before + flatten_item(item@, stack_view(stack@)));
        },
        HeaderItem::Scope(scope) => {
            let mut inner = copy_stack(stack);
            inner.push((scope.scope_type, scope.identifier.clone()));
            let ghost children = items_view(scope.items@);
            let ghost path = stack_view(inner@);
            assert(path =~= stack_view(stack@).push((scope.scope_type, scope.identifier@)));
            assert(item@ matches HeaderItemView::Scope(s) && s.items =~= children);
            let mut i: usize = 0;
            while i < scope.items.len()
                invariant
                    i <= scope.items@.len(),
                    *item == HeaderItem::Scope(*scope),
                    children == items_view(scope.items@),
                    path == stack_view(inner@),
                    vars_view(vars@) + flatten_from(children, i as int, path) == before
                        + flatten_from(children, 0, path),
                decreases scope.items@.len() - i,
            {
                let ghost sofar = vars_view(vars@);
                assert(decreases_to!(scope.items => scope.items[i as int]));
                assert(decreases_to!(*item => item->Scope_0));
                add_scopes(vars, &inner, &scope.items[i]);
                assert(vars_view(vars@) + flatten_from(children, i + 1, path) =~= sofar
                    + flatten_from(children, i as int, path));
                i = i + 1;
            }
            assert(vars_view(vars@) =~= before + flatten_from(children, 0, path));
        },
        HeaderItem::Comment(_) => {
            assert(vars_view(vars@) =~= before + flatten_item(item@, stack_view(stack@)));
        },
        HeaderItem::Other => {
            assert(vars_view(vars@) =~= before + flatten_item(item@, stack_view(stack@)));
        },
    }
}

/// The variables that a header declares, each with the scopes that lead to it:
/// depth first, in declaration order, comments and unknown items passed over.
pub fn header_vars(items: &[HeaderItem]) -> (vars: Vec<ScopedVar>)
    ensures
        vars_view(vars@) == flatten(items_view(items@)),
{
    let mut vars: Vec<ScopedVar> = Vec::new();
    let stack: Vec<(ScopeKind, String)> = Vec::new();
    let ghost top = items_view(items@);
    let ghost none = Seq::<(ScopeKind, Seq<char>)>::empty();
    assert(stack_view(stack@) =~= none);
    assert(vars_view(vars@) =~= Seq::<ScopedVarView>::empty());
    let mut i: usize = 0;
    while i < items.len()
        invariant
            i <= items@.len(),
            top == items_view(items@),
            stack_view(stack@) == none,
            vars_view(vars@) + flatten_from(top, i as int, none) == flatten_from(top, 0, none),
        decreases items@.len() - i,
    {
        let ghost sofar = vars_view(vars@);
        add_scopes(&mut vars, &stack, &items[i]);
        assert(vars_view(vars@) + flatten_from(top, i + 1, none) =~= sofar + flatten_from(
            top,
            i as int,
            none,
        ));
        i = i + 1;
    }
    assert(vars_view(vars@) =~= flatten_from(top, 0, none));
    vars
}

} // verus!
