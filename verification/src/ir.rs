//! The type-graph data model.
//!
//! A [`TypeGraph`] is an arena of [`TypeDefinition`]s; a definition is
//! identified by its index in the arena, which serves as the stable identity
//! that the dependency-closure walker deduplicates on. [`TypeExpr`] is the
//! algebraic type-expression tree; a [`TypeInfo`] is either an inline
//! (`Native`) expression or a use of a `Defined` definition together with the
//! generic arguments supplied at that use site.

use vstd::prelude::*;

verus! {

/// A validated identifier in the target language.
pub struct Ident {
    pub name: String,
}

/// A string literal type, rendered as a quoted, escaped literal.
pub struct TypeString {
    /// Documentation attached to this node, if any.
    pub docs: Option<String>,
    /// The literal value, unescaped.
    pub value: String,
}

/// A namespaced identifier with optional generic arguments, used for generic
/// placeholders and for references already in scope that do not go through a
/// definition identity.
pub struct TypeName {
    /// Namespace path segments preceding the name.
    pub path: Vec<Ident>,
    /// The identifier itself.
    pub name: Ident,
    /// Generic arguments; rendered only when non-empty.
    pub generic_args: Vec<TypeExpr>,
}

/// An ordered sequence of element types.
pub struct TypeTuple {
    pub docs: Option<String>,
    pub elements: Vec<TypeExpr>,
}

/// One named field of an object type.
pub struct ObjectField {
    pub docs: Option<String>,
    /// The field name, rendered as a string literal.
    pub name: TypeString,
    /// Whether the field is optional.
    pub optional: bool,
    /// The field's type.
    pub ty: TypeExpr,
}

/// An ordered set of named fields.
pub struct TypeObject {
    pub docs: Option<String>,
    pub fields: Vec<ObjectField>,
}

/// An array of a single item type.
pub struct TypeArray {
    pub docs: Option<String>,
    pub item: Box<TypeExpr>,
}

/// An ordered union of member types; empty means the bottom type.
pub struct TypeUnion {
    pub docs: Option<String>,
    pub members: Vec<TypeExpr>,
}

/// An ordered intersection of member types; empty means the top type.
pub struct TypeIntersection {
    pub docs: Option<String>,
    pub members: Vec<TypeExpr>,
}

/// An inline type: its expression is rendered verbatim at every use site and
/// contributes no standalone declaration.
pub struct NativeTypeInfo {
    /// The wrapped expression.
    pub expr: Box<TypeExpr>,
}

/// A use of a definition template, together with the generic arguments
/// supplied at this use site.
pub struct DefinedTypeInfo {
    /// The identity of the definition in the graph arena.
    pub def: usize,
    /// Generic arguments for this use; rendered only when non-empty.
    pub generic_args: Vec<TypeExpr>,
}

/// Information about a type: either inline or a use of a definition.
pub enum TypeInfo {
    Native(NativeTypeInfo),
    Defined(DefinedTypeInfo),
}

/// A type expression.
pub enum TypeExpr {
    /// A reference to a type described by a [`TypeInfo`].
    Ref(TypeInfo),
    /// A namespaced identifier reference.
    Name(TypeName),
    /// A string literal type.
    String(TypeString),
    /// A tuple type.
    Tuple(TypeTuple),
    /// An object type.
    Object(TypeObject),
    /// An array type.
    Array(TypeArray),
    /// A union type.
    Union(TypeUnion),
    /// An intersection type.
    Intersection(TypeIntersection),
}

/// A declaration template: one emitted, named, optionally namespaced,
/// optionally generic type definition.
pub struct TypeDefinition {
    /// Documentation emitted above the declaration, if any.
    pub docs: Option<String>,
    /// Namespace path segments; empty means the declaration sits directly
    /// under the root namespace (or at top level when none is configured).
    pub path: Vec<Ident>,
    /// The declared name.
    pub name: Ident,
    /// Generic variable placeholders usable inside the body.
    pub generic_vars: Vec<Ident>,
    /// The body of the declaration.
    pub def: TypeExpr,
}

/// The arena of definitions. A definition's index in `defs` is its identity.
pub struct TypeGraph {
    pub defs: Vec<TypeDefinition>,
}

/// A root type together with the graph its definitions live in.
pub struct TypeDescription {
    pub graph: TypeGraph,
    pub root: TypeInfo,
}

/// The definition identities referenced directly by each expression of a
/// sequence.
pub open spec fn exprs_refs(es: Seq<TypeExpr>) -> Set<int>
    decreases es,
{
    if es.len() == 0 {
        Set::empty()
    } else {
        expr_refs(es[0]).union(exprs_refs(es.drop_first()))
    }
}

/// The definition identities referenced directly by the types of a sequence
/// of object fields.
pub open spec fn fields_refs(fs: Seq<ObjectField>) -> Set<int>
    decreases fs,
{
    if fs.len() == 0 {
        Set::empty()
    } else {
        expr_refs(fs[0].ty).union(fields_refs(fs.drop_first()))
    }
}

/// The definition identities referenced directly by a [`TypeInfo`]: the used
/// definition itself (when `Defined`) and everything referenced from its
/// generic arguments or wrapped expression.
pub open spec fn info_refs(info: TypeInfo) -> Set<int>
    decreases info,
{
    match info {
        TypeInfo::Native(n) => expr_refs(*n.expr),
        TypeInfo::Defined(d) => exprs_refs(d.generic_args@).insert(d.def as int),
    }
}

/// The definition identities referenced anywhere inside an expression.
pub open spec fn expr_refs(e: TypeExpr) -> Set<int>
    decreases e,
{
    match e {
        TypeExpr::Ref(info) => info_refs(info),
        TypeExpr::Name(n) => exprs_refs(n.generic_args@),
        TypeExpr::String(_) => Set::empty(),
        TypeExpr::Tuple(t) => exprs_refs(t.elements@),
        TypeExpr::Object(o) => fields_refs(o.fields@),
        TypeExpr::Array(a) => expr_refs(*a.item),
        TypeExpr::Union(u) => exprs_refs(u.members@),
        TypeExpr::Intersection(i) => exprs_refs(i.members@),
    }
}

/// An expression is well formed for a graph of `n` definitions when every
/// definition it references exists.
pub open spec fn expr_wf(n: int, e: TypeExpr) -> bool {
    forall|d: int| #[trigger] expr_refs(e).contains(d) ==> 0 <= d < n
}

/// A root is well formed when every definition it references exists.
pub open spec fn info_wf(n: int, info: TypeInfo) -> bool {
    forall|d: int| #[trigger] info_refs(info).contains(d) ==> 0 <= d < n
}

impl TypeGraph {
    /// A graph is well formed when every definition body references only
    /// definitions of the graph.
    pub open spec fn wf(self) -> bool {
        forall|k: int|
            0 <= k < self.defs@.len() ==> expr_wf(self.defs@.len() as int, self.defs@[k].def)
    }
}

impl TypeDescription {
    /// The graph is well formed and the root references only definitions of
    /// the graph.
    pub open spec fn wf(self) -> bool {
        self.graph.wf() && info_wf(self.graph.defs@.len() as int, self.root)
    }
}

/// A type that carries a description of its own structural type.
///
/// The emitter consumes the description: the declaration for the root (when
/// it is `Defined`) and for all of its transitive dependencies is what a
/// definition file contains.
pub trait TypeDef {
    /// The type graph and root describing this type.
    fn info() -> (r: TypeDescription)
        ensures
            r.wf(),
    ;
}

/// A description whose root is a bare, inline reference to `name` and whose
/// graph is empty.
fn native_name_description(name: String) -> (r: TypeDescription)
    ensures
        r.wf(),
{
    let args: Vec<TypeExpr> = Vec::new();
    proof {
        assert(exprs_refs(args@) =~= Set::<int>::empty());
    }
    let tn = TypeName { path: Vec::new(), name: Ident { name }, generic_args: args };
    let e = TypeExpr::Name(tn);
    proof {
        assert(expr_refs(e) =~= Set::<int>::empty());
    }
    let root = TypeInfo::Native(NativeTypeInfo { expr: Box::new(e) });
    proof {
        assert(info_refs(root) =~= Set::<int>::empty());
    }
    TypeDescription { graph: TypeGraph { defs: Vec::new() }, root }
}

impl TypeDef for bool {
    fn info() -> (r: TypeDescription) {
        native_name_description("boolean".to_owned())
    }
}

impl TypeDef for String {
    fn info() -> (r: TypeDescription) {
        native_name_description("string".to_owned())
    }
}

/// Every identity referenced by an element of a sequence is referenced by the
/// sequence.
pub proof fn lemma_exprs_refs_mem(es: Seq<TypeExpr>, i: int)
    requires
        0 <= i < es.len(),
    ensures
        expr_refs(es[i]).subset_of(exprs_refs(es)),
    decreases es.len(),
{
    if i > 0 {
        lemma_exprs_refs_mem(es.drop_first(), i - 1);
        assert(es.drop_first()[i - 1] == es[i]);
    }
}

/// Every identity referenced by a field's type is referenced by the field
/// sequence.
pub proof fn lemma_fields_refs_mem(fs: Seq<ObjectField>, i: int)
    requires
        0 <= i < fs.len(),
    ensures
        expr_refs(fs[i].ty).subset_of(fields_refs(fs)),
    decreases fs.len(),
{
    if i > 0 {
        lemma_fields_refs_mem(fs.drop_first(), i - 1);
        assert(fs.drop_first()[i - 1] == fs[i]);
    }
}

/// When every element of a sequence is well formed, every identity the
/// sequence references is in bounds.
pub proof fn lemma_exprs_wf_bound(es: Seq<TypeExpr>, n: int)
    requires
        forall|i: int| 0 <= i < es.len() ==> expr_wf(n, es[i]),
    ensures
        forall|d: int| #[trigger] exprs_refs(es).contains(d) ==> 0 <= d < n,
    decreases es.len(),
{
    if es.len() > 0 {
        assert(expr_wf(n, es[0]));
        assert forall|i: int| 0 <= i < es.len() - 1 implies expr_wf(n, es.drop_first()[i]) by {
            assert(es.drop_first()[i] == es[i + 1]);
        }
        lemma_exprs_wf_bound(es.drop_first(), n);
        assert forall|d: int| exprs_refs(es).contains(d) implies 0 <= d < n by {
            assert(expr_refs(es[0]).contains(d) || exprs_refs(es.drop_first()).contains(d));
        }
    }
}

/// The field analogue of [`lemma_exprs_wf_bound`].
pub proof fn lemma_fields_wf_bound(fs: Seq<ObjectField>, n: int)
    requires
        forall|i: int| 0 <= i < fs.len() ==> expr_wf(n, fs[i].ty),
    ensures
        forall|d: int| #[trigger] fields_refs(fs).contains(d) ==> 0 <= d < n,
    decreases fs.len(),
{
    if fs.len() > 0 {
        assert(expr_wf(n, fs[0].ty));
        assert forall|i: int| 0 <= i < fs.len() - 1 implies expr_wf(n, fs.drop_first()[i].ty) by {
            assert(fs.drop_first()[i] == fs[i + 1]);
        }
        lemma_fields_wf_bound(fs.drop_first(), n);
        assert forall|d: int| fields_refs(fs).contains(d) implies 0 <= d < n by {
            assert(expr_refs(fs[0].ty).contains(d) || fields_refs(fs.drop_first()).contains(d));
        }
    }
}

/// Checks that an expression references only definitions below `n`.
fn expr_refs_bounded(n: usize, e: &TypeExpr) -> (b: bool)
    ensures
        b == expr_wf(n as int, *e),
    decreases *e, 0int,
{
    match e {
        TypeExpr::Ref(TypeInfo::Native(nt)) => {
            proof {
                reveal_with_fuel(expr_refs, 2);
                assert(expr_refs(*e) == expr_refs(*nt.expr));
            }
            expr_refs_bounded(n, &*nt.expr)
        },
        TypeExpr::Ref(TypeInfo::Defined(dt)) => {
            proof {
                reveal_with_fuel(expr_refs, 2);
                assert(expr_refs(*e) =~= exprs_refs(dt.generic_args@).insert(dt.def as int));
            }
            let ok_def = dt.def < n;
            let ok_args = exprs_refs_bounded(n, &dt.generic_args);
            proof {
                if ok_def && ok_args {
                    assert forall|d: int| #[trigger] expr_refs(*e).contains(d) implies 0 <= d < n
                        as int by {
                        assert(d == dt.def as int || exprs_refs(dt.generic_args@).contains(d));
                    }
                } else if !ok_def {
                    assert(expr_refs(*e).contains(dt.def as int));
                } else {
                    let d = choose|d: int|
                        #[trigger] exprs_refs(dt.generic_args@).contains(d) && !(0 <= d < n as int);
                    assert(expr_refs(*e).contains(d));
                }
            }
            ok_def && ok_args
        },
        TypeExpr::Name(tn) => {
            proof {
                assert(expr_refs(*e) == exprs_refs(tn.generic_args@));
            }
            exprs_refs_bounded(n, &tn.generic_args)
        },
        TypeExpr::String(_) => {
            proof {
                assert(expr_refs(*e) =~= Set::<int>::empty());
            }
            true
        },
        TypeExpr::Tuple(t) => {
            proof {
                assert(expr_refs(*e) == exprs_refs(t.elements@));
            }
            exprs_refs_bounded(n, &t.elements)
        },
        TypeExpr::Object(o) => {
            proof {
                assert(expr_refs(*e) == fields_refs(o.fields@));
            }
            fields_refs_bounded(n, &o.fields)
        },
        TypeExpr::Array(a) => {
            proof {
                assert(expr_refs(*e) == expr_refs(*a.item));
            }
            expr_refs_bounded(n, &*a.item)
        },
        TypeExpr::Union(u) => {
            proof {
                assert(expr_refs(*e) == exprs_refs(u.members@));
            }
            exprs_refs_bounded(n, &u.members)
        },
        TypeExpr::Intersection(x) => {
            proof {
                assert(expr_refs(*e) == exprs_refs(x.members@));
            }
            exprs_refs_bounded(n, &x.members)
        },
    }
}

/// Checks that the expressions of a sequence reference only definitions below
/// `n`.
fn exprs_refs_bounded(n: usize, es: &Vec<TypeExpr>) -> (b: bool)
    ensures
        b == (forall|d: int| #[trigger] exprs_refs(es@).contains(d) ==> 0 <= d < n as int),
    decreases es@, 1int,
{
    let mut ok = true;
    let mut k: usize = 0;
    while k < es.len()
        invariant
            0 <= k <= es@.len(),
            ok == (forall|i: int| 0 <= i < k ==> expr_wf(n as int, #[trigger] es@[i])),
        decreases es@.len() - k,
    {
        let w = expr_refs_bounded(n, &es[k]);
        ok = ok && w;
        proof {
            assert(ok == (forall|i: int| 0 <= i < k + 1 ==> expr_wf(n as int, #[trigger] es@[i])));
        }
        k = k + 1;
    }
    proof {
        if ok {
            lemma_exprs_wf_bound(es@, n as int);
        } else {
            let i = choose|i: int| 0 <= i < es@.len() && !expr_wf(n as int, es@[i]);
            let d = choose|d: int|
                #[trigger] expr_refs(es@[i]).contains(d) && !(0 <= d < n as int);
            lemma_exprs_refs_mem(es@, i);
            assert(exprs_refs(es@).contains(d));
        }
    }
    ok
}

/// Checks that the field types of a sequence reference only definitions below
/// `n`.
fn fields_refs_bounded(n: usize, fs: &Vec<ObjectField>) -> (b: bool)
    ensures
        b == (forall|d: int| #[trigger] fields_refs(fs@).contains(d) ==> 0 <= d < n as int),
    decreases fs@, 1int,
{
    let mut ok = true;
    let mut k: usize = 0;
    while k < fs.len()
        invariant
            0 <= k <= fs@.len(),
            ok == (forall|i: int| 0 <= i < k ==> expr_wf(n as int, #[trigger] fs@[i].ty)),
        decreases fs@.len() - k,
    {
        let w = expr_refs_bounded(n, &fs[k].ty);
        ok = ok && w;
        proof {
            assert(ok == (forall|i: int|
                0 <= i < k + 1 ==> expr_wf(n as int, #[trigger] fs@[i].ty)));
        }
        k = k + 1;
    }
    proof {
        if ok {
            lemma_fields_wf_bound(fs@, n as int);
        } else {
            let i = choose|i: int| 0 <= i < fs@.len() && !expr_wf(n as int, fs@[i].ty);
            let d = choose|d: int|
                #[trigger] expr_refs(fs@[i].ty).contains(d) && !(0 <= d < n as int);
            lemma_fields_refs_mem(fs@, i);
            assert(fields_refs(fs@).contains(d));
        }
    }
    ok
}

/// Checks that a root references only definitions below `n`.
fn info_refs_bounded(n: usize, info: &TypeInfo) -> (b: bool)
    ensures
        b == info_wf(n as int, *info),
{
    match info {
        TypeInfo::Native(nt) => {
            proof {
                assert(info_refs(*info) == expr_refs(*nt.expr));
            }
            expr_refs_bounded(n, &*nt.expr)
        },
        TypeInfo::Defined(dt) => {
            proof {
                assert(info_refs(*info) =~= exprs_refs(dt.generic_args@).insert(dt.def as int));
            }
            let ok_def = dt.def < n;
            let ok_args = exprs_refs_bounded(n, &dt.generic_args);
            proof {
                if ok_def && ok_args {
                    assert forall|d: int| #[trigger] info_refs(*info).contains(d) implies 0 <= d
                        < n as int by {
                        assert(d == dt.def as int || exprs_refs(dt.generic_args@).contains(d));
                    }
                } else if !ok_def {
                    assert(info_refs(*info).contains(dt.def as int));
                } else {
                    let d = choose|d: int|
                        #[trigger] exprs_refs(dt.generic_args@).contains(d) && !(0 <= d < n as int);
                    assert(info_refs(*info).contains(d));
                }
            }
            ok_def && ok_args
        },
    }
}

/// Checks that a graph and a root are well formed: every definition
/// referenced from any definition body or from the root exists in the graph.
///
/// Callers outside verified code use this to test the precondition of the
/// emitter before calling it.
pub fn graph_well_formed(g: &TypeGraph, root: &TypeInfo) -> (b: bool)
    ensures
        b == (g.wf() && info_wf(g.defs@.len() as int, *root)),
{
    let n = g.defs.len();
    let mut ok = true;
    let mut k: usize = 0;
    while k < n
        invariant
            n == g.defs@.len(),
            0 <= k <= n,
            ok == (forall|i: int| 0 <= i < k ==> expr_wf(n as int, #[trigger] g.defs@[i].def)),
        decreases n - k,
    {
        let w = expr_refs_bounded(n, &g.defs[k].def);
        ok = ok && w;
        proof {
            assert(ok == (forall|i: int|
                0 <= i < k + 1 ==> expr_wf(n as int, #[trigger] g.defs@[i].def)));
        }
        k = k + 1;
    }
    let rk = info_refs_bounded(n, root);
    ok && rk
}


} // verus!
