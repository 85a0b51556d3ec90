//! The module emitter.
//!
//! [`write_definition_file`] appends a whole definition module to an output
//! buffer: the configured header, the optional default export and root
//! namespace, one declaration per definition in the root's dependency
//! closure, and the closing brace. The spec function [`module_text`] states
//! the produced text exactly.

use vstd::prelude::*;
use vstd::string::StringExecFns;

use crate::closure::{closure_seq, compute_closure, lemma_closure_upto_props};
use crate::ir::{expr_wf, info_wf, TypeDefinition, TypeGraph, TypeInfo};
use crate::text::{
    docs_text, emit_docs, emit_generic_vars, emit_joined_idents, emit_type_expr,
    generic_vars_text, joined_idents_text, opt_text, render_expr,
};

verus! {

/// Options for customizing the output of [`write_definition_file`].
pub struct DefinitionFileOptions {
    /// Text emitted verbatim at the start of the file, followed by a blank
    /// line. Nothing is emitted when absent.
    pub header: Option<String>,
    /// The name of the root namespace the declarations are placed under.
    ///
    /// A root namespace gives every declaration an unambiguous fully
    /// qualified name, which keeps references sound when declarations under
    /// different namespace paths share a leaf name. When absent, no default
    /// export and no wrapping namespace are produced; avoiding collisions is
    /// then the caller's responsibility.
    pub root_namespace: Option<String>,
}

/// Statistics about the type definitions produced by
/// [`write_definition_file`].
pub struct Stats {
    /// The number of unique type definitions produced.
    pub type_definitions: usize,
}

/// One declaration: its documentation block; when its path is non-empty, one
/// namespace block named by the dot-joined path; inside, the exported,
/// optionally generic type alias.
pub open spec fn decl_text(g: TypeGraph, rns: Option<Seq<char>>, d: TypeDefinition) -> Seq<char> {
    docs_text(d.docs) + (if d.path@.len() > 0 {
        ("export namespace ")@ + joined_idents_text(d.path@, (".")@) + ("{")@
    } else {
        Seq::empty()
    }) + ("export type ")@ + d.name.name@ + generic_vars_text(d.generic_vars@) + ("=")@
        + render_expr(g, rns, d.def) + (";")@ + (if d.path@.len() > 0 {
        ("}")@
    } else {
        Seq::empty()
    }) + ("\n")@
}

/// The declarations of the listed definitions, in order.
pub open spec fn decls_text(g: TypeGraph, rns: Option<Seq<char>>, ids: Seq<usize>) -> Seq<char>
    decreases ids.len(),
{
    if ids.len() == 0 {
        Seq::empty()
    } else {
        decls_text(g, rns, ids.drop_last()) + decl_text(g, rns, g.defs@[ids.last() as int])
    }
}

/// The optional header, followed by a blank line.
pub open spec fn header_text(header: Option<Seq<char>>) -> Seq<char> {
    match header {
        Option::Some(h) => h + ("\n")@,
        Option::None => Seq::empty(),
    }
}

/// The default-export line and the opening of the root namespace, when one is
/// configured.
pub open spec fn ns_open_text(rns: Option<Seq<char>>) -> Seq<char> {
    match rns {
        Option::Some(r) => ("export default ")@ + r + (";\n")@ + ("export namespace ")@ + r + (
        "{\n")@,
        Option::None => Seq::empty(),
    }
}

/// The closing of the root namespace, when one is configured.
pub open spec fn ns_close_text(rns: Option<Seq<char>>) -> Seq<char> {
    match rns {
        Option::Some(_) => ("}\n")@,
        Option::None => Seq::empty(),
    }
}

/// The whole module: header, optional default export and root-namespace
/// opening, one declaration per definition of the root's dependency closure,
/// optional closing brace.
pub open spec fn module_text(
    g: TypeGraph,
    root: TypeInfo,
    header: Option<Seq<char>>,
    rns: Option<Seq<char>>,
) -> Seq<char> {
    header_text(header) + ns_open_text(rns) + decls_text(g, rns, closure_seq(g, root))
        + ns_close_text(rns)
}

impl Default for DefinitionFileOptions {
    /// The default options: an auto-generated notice as the header, and
    /// `types` as the root namespace.
    fn default() -> (r: Self)
        ensures
            opt_text(r.header) == Option::Some(("// AUTO-GENERATED by typescript-type-def\n")@),
            opt_text(r.root_namespace) == Option::Some(("types")@),
    {
        DefinitionFileOptions {
            header: Option::Some("// AUTO-GENERATED by typescript-type-def\n".to_owned()),
            root_namespace: Option::Some("types".to_owned()),
        }
    }
}

/// Appends one declaration.
fn emit_declaration(g: &TypeGraph, rns: &Option<String>, d: &TypeDefinition, out: &mut String)
    requires
        g.wf(),
        expr_wf(g.defs@.len() as int, d.def),
    ensures
        final(out)@ == old(out)@ + decl_text(*g, opt_text(*rns), *d),
{
    emit_docs(&d.docs, out);
    if d.path.len() > 0 {
        out.append("export namespace ");
        emit_joined_idents(&d.path, ".", out);
        out.append("{");
    }
    out.append("export type ");
    out.append(d.name.name.as_str());
    emit_generic_vars(&d.generic_vars, out);
    out.append("=");
    emit_type_expr(g, rns, &d.def, out);
    out.append(";");
    if d.path.len() > 0 {
        out.append("}");
    }
    out.append("\n");
    proof {
        assert(out@ =~= old(out)@ + decl_text(*g, opt_text(*rns), *d));
    }
}

/// Appends a whole definition module for the root type to `out` and returns
/// how many unique type definitions it declares.
///
/// Text already in `out` stays in place; the module text is appended after
/// it. The module declares the root's definition (when the root is a use of
/// one) and every definition transitively reachable from it, each exactly
/// once, cycles included.
#[verifier::rlimit(60)]
pub fn write_definition_file(
    out: &mut String,
    graph: &TypeGraph,
    root: &TypeInfo,
    options: &DefinitionFileOptions,
) -> (stats: Stats)
    requires
        graph.wf(),
        info_wf(graph.defs@.len() as int, *root),
    ensures
        final(out)@ == old(out)@ + module_text(
            *graph,
            *root,
            opt_text(options.header),
            opt_text(options.root_namespace),
        ),
        stats.type_definitions == closure_seq(*graph, *root).len(),
{
    match &options.header {
        Option::Some(h) => {
            out.append(h.as_str());
            out.append("\n");
        },
        Option::None => {},
    }
    match &options.root_namespace {
        Option::Some(r) => {
            out.append("export default ");
            out.append(r.as_str());
            out.append(";\n");
            out.append("export namespace ");
            out.append(r.as_str());
            out.append("{\n");
        },
        Option::None => {},
    }
    let n = graph.defs.len();
    let ids = compute_closure(graph, root);
    proof {
        assert(graph.defs@.len() == n as int);
        lemma_closure_upto_props(*graph, *root, graph.defs@.len() as int);
        assert(ids@.subrange(0, 0) =~= Seq::<usize>::empty());
    }
    let ghost base = out@;
    let mut k: usize = 0;
    while k < ids.len()
        invariant
            graph.wf(),
            ids@ == closure_seq(*graph, *root),
            forall|i: int| 0 <= i < ids@.len() ==> #[trigger] ids@[i] < graph.defs@.len(),
            0 <= k <= ids@.len(),
            out@ == base + decls_text(
                *graph,
                opt_text(options.root_namespace),
                ids@.subrange(0, k as int),
            ),
        decreases ids@.len() - k,
    {
        let d = ids[k];
        proof {
            assert(expr_wf(graph.defs@.len() as int, graph.defs@[d as int].def));
        }
        emit_declaration(graph, &options.root_namespace, &graph.defs[d], out);
        proof {
            assert(ids@.subrange(0, k + 1).drop_last() =~= ids@.subrange(0, k as int));
            assert(ids@.subrange(0, k + 1).last() == ids@[k as int]);
            assert(out@ =~= base + decls_text(
                *graph,
                opt_text(options.root_namespace),
                ids@.subrange(0, k + 1),
            ));
        }
        k = k + 1;
    }
    match &options.root_namespace {
        Option::Some(_) => {
            out.append("}\n");
        },
        Option::None => {},
    }
    proof {
        assert(ids@.subrange(0, ids@.len() as int) =~= ids@);
        assert(out@ =~= old(out)@ + module_text(
            *graph,
            *root,
            opt_text(options.header),
            opt_text(options.root_namespace),
        ));
    }
    Stats { type_definitions: ids.len() }
}

/// Law: emitting the same root graph twice with the same configuration
/// yields identical output — the module text is a function of the graph, the
/// root and the option texts alone.
pub proof fn lemma_emission_deterministic(
    g: TypeGraph,
    root: TypeInfo,
    o1: DefinitionFileOptions,
    o2: DefinitionFileOptions,
)
    requires
        opt_text(o1.header) == opt_text(o2.header),
        opt_text(o1.root_namespace) == opt_text(o2.root_namespace),
    ensures
        module_text(g, root, opt_text(o1.header), opt_text(o1.root_namespace)) == module_text(
            g,
            root,
            opt_text(o2.header),
            opt_text(o2.root_namespace),
        ),
{
}

/// Law: a definition with an empty path is declared bare, directly under the
/// optional root namespace; one with a non-empty path is declared inside
/// exactly one namespace block, named by the dot-joined path.
pub proof fn lemma_namespacing(g: TypeGraph, rns: Option<Seq<char>>, d: TypeDefinition)
    ensures
        d.path@.len() == 0 ==> decl_text(g, rns, d) == docs_text(d.docs) + ("export type ")@
            + d.name.name@ + generic_vars_text(d.generic_vars@) + ("=")@ + render_expr(
            g,
            rns,
            d.def,
        ) + (";")@ + ("\n")@,
        d.path@.len() > 0 ==> decl_text(g, rns, d) == docs_text(d.docs) + ("export namespace ")@
            + joined_idents_text(d.path@, (".")@) + ("{")@ + ("export type ")@ + d.name.name@
            + generic_vars_text(d.generic_vars@) + ("=")@ + render_expr(g, rns, d.def) + (";")@
            + ("}")@ + ("\n")@,
{
    if d.path@.len() == 0 {
        assert(decl_text(g, rns, d) =~= docs_text(d.docs) + ("export type ")@ + d.name.name@
            + generic_vars_text(d.generic_vars@) + ("=")@ + render_expr(g, rns, d.def) + (";")@
            + ("\n")@);
    } else {
        assert(decl_text(g, rns, d) =~= docs_text(d.docs) + ("export namespace ")@
            + joined_idents_text(d.path@, (".")@) + ("{")@ + ("export type ")@ + d.name.name@
            + generic_vars_text(d.generic_vars@) + ("=")@ + render_expr(g, rns, d.def) + (";")@
            + ("}")@ + ("\n")@);
    }
}


} // verus!
