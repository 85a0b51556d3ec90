//! The expression serializer.
//!
//! The spec functions here define, character for character, the text that
//! every node of the type-expression tree renders to; the exec functions
//! append exactly that text to a growing output buffer.

use vstd::prelude::*;
use vstd::string::StrSliceExecFns;
use vstd::string::StringExecFns;

use crate::ir::{
    expr_refs, expr_wf, exprs_refs, fields_refs, lemma_exprs_refs_mem, lemma_fields_refs_mem,
    ObjectField, TypeExpr, TypeGraph, TypeInfo, TypeString,
};

verus! {

/// The view of an optional text, for stating contracts over plain sequences.
pub open spec fn opt_text(o: Option<String>) -> Option<Seq<char>> {
    match o {
        Option::Some(s) => Option::Some(s@),
        Option::None => Option::None,
    }
}

/// A control character without a short escape of its own: the code points
/// below 0x20 and the range 0x7f through 0x9f.
pub open spec fn is_escaped_control(c: char) -> bool {
    (c as int) < 0x20 || (0x7f <= c as int && c as int <= 0x9f)
}

/// One lowercase hexadecimal digit.
pub open spec fn hex_digit(v: int) -> char {
    if v == 0 {
        '0'
    } else if v == 1 {
        '1'
    } else if v == 2 {
        '2'
    } else if v == 3 {
        '3'
    } else if v == 4 {
        '4'
    } else if v == 5 {
        '5'
    } else if v == 6 {
        '6'
    } else if v == 7 {
        '7'
    } else if v == 8 {
        '8'
    } else if v == 9 {
        '9'
    } else if v == 10 {
        'a'
    } else if v == 11 {
        'b'
    } else if v == 12 {
        'c'
    } else if v == 13 {
        'd'
    } else if v == 14 {
        'e'
    } else {
        'f'
    }
}

/// A control character as a braced hexadecimal escape, without leading
/// zeroes.
pub open spec fn control_escape(c: char) -> Seq<char> {
    seq!['\\', 'u', '{'] + (if (c as int) < 16 {
        seq![hex_digit(c as int)]
    } else {
        seq![hex_digit(c as int / 16), hex_digit(c as int % 16)]
    }) + seq!['}']
}

/// How one character of a string literal is escaped: quote, backslash,
/// newline, carriage return and tab get a backslash escape; any other control
/// character gets a braced hexadecimal escape; every other character passes
/// through unchanged.
pub open spec fn escape_char(c: char) -> Seq<char> {
    if c == '"' {
        seq!['\\', '"']
    } else if c == '\\' {
        seq!['\\', '\\']
    } else if c == '\n' {
        seq!['\\', 'n']
    } else if c == '\r' {
        seq!['\\', 'r']
    } else if c == '\t' {
        seq!['\\', 't']
    } else if is_escaped_control(c) {
        control_escape(c)
    } else {
        seq![c]
    }
}

/// A text with each character escaped.
pub open spec fn escape_text(s: Seq<char>) -> Seq<char>
    decreases s.len(),
{
    if s.len() == 0 {
        Seq::empty()
    } else {
        escape_text(s.drop_last()) + escape_char(s.last())
    }
}

/// A value as a quoted, escaped string literal.
pub open spec fn string_literal_text(v: Seq<char>) -> Seq<char> {
    seq!['"'] + escape_text(v) + seq!['"']
}

/// A line with a final carriage return removed, so that a carriage return
/// followed by a newline counts as one line break.
pub open spec fn strip_cr(line: Seq<char>) -> Seq<char> {
    if line.len() > 0 && line.last() == '\r' {
        line.drop_last()
    } else {
        line
    }
}

/// A documentation text split into lines: every newline ends a line (a
/// carriage return directly before it belongs to the break), and the
/// remainder after the last newline is a final line unless it is empty.
pub open spec fn split_lines_from(s: Seq<char>, cur: Seq<char>) -> Seq<Seq<char>>
    decreases s.len(),
{
    if s.len() == 0 {
        if cur.len() == 0 {
            Seq::empty()
        } else {
            seq![cur]
        }
    } else if s[0] == '\n' {
        seq![strip_cr(cur)] + split_lines_from(s.drop_first(), Seq::empty())
    } else {
        split_lines_from(s.drop_first(), cur.push(s[0]))
    }
}

/// The lines of a documentation text.
pub open spec fn lines_of(s: Seq<char>) -> Seq<Seq<char>> {
    split_lines_from(s, Seq::empty())
}

/// The body of a documentation block: one prefixed line per source line.
pub open spec fn doc_lines_text(ls: Seq<Seq<char>>) -> Seq<char>
    decreases ls.len(),
{
    if ls.len() == 0 {
        Seq::empty()
    } else {
        doc_lines_text(ls.drop_last()) + (" * ")@ + ls.last() + ("\n")@
    }
}

/// A documentation block: nothing when absent, else a block comment emitted
/// immediately before the node's own output.
pub open spec fn docs_text(docs: Option<String>) -> Seq<char> {
    match docs {
        Option::None => Seq::empty(),
        Option::Some(d) => ("\n/**\n")@ + doc_lines_text(lines_of(d@)) + (" */\n")@,
    }
}

/// A namespace path as a reference prefix: every segment followed by a dot.
pub open spec fn ref_path_text(path: Seq<crate::ir::Ident>) -> Seq<char>
    decreases path.len(),
{
    if path.len() == 0 {
        Seq::empty()
    } else {
        ref_path_text(path.drop_last()) + path.last().name@ + (".")@
    }
}

/// Identifiers joined by a separator, without a trailing separator.
pub open spec fn joined_idents_text(ids: Seq<crate::ir::Ident>, sep: Seq<char>) -> Seq<char>
    decreases ids.len(),
{
    if ids.len() == 0 {
        Seq::empty()
    } else if ids.len() == 1 {
        ids[0].name@
    } else {
        joined_idents_text(ids.drop_last(), sep) + sep + ids.last().name@
    }
}

/// A generic-variable list: nothing when empty, else comma-joined inside
/// angle brackets.
pub open spec fn generic_vars_text(vars: Seq<crate::ir::Ident>) -> Seq<char> {
    if vars.len() == 0 {
        Seq::empty()
    } else {
        ("<")@ + joined_idents_text(vars, (",")@) + (">")@
    }
}

/// The optional root-namespace prefix of a reference to a definition.
pub open spec fn ns_prefix_text(rns: Option<Seq<char>>) -> Seq<char> {
    match rns {
        Option::Some(r) => r + (".")@,
        Option::None => Seq::empty(),
    }
}

/// A string literal node: its documentation block, then the quoted literal.
pub open spec fn render_type_string(ts: TypeString) -> Seq<char> {
    docs_text(ts.docs) + string_literal_text(ts.value@)
}

/// The text an expression renders to, given the graph its definition
/// references point into and the configured root namespace.
pub open spec fn render_expr(g: TypeGraph, rns: Option<Seq<char>>, e: TypeExpr) -> Seq<char>
    decreases e, 0int,
{
    match e {
        TypeExpr::Ref(TypeInfo::Native(n)) => render_expr(g, rns, *n.expr),
        TypeExpr::Ref(TypeInfo::Defined(dt)) => ns_prefix_text(rns) + ref_path_text(
            g.defs@[dt.def as int].path@,
        ) + g.defs@[dt.def as int].name.name@ + generic_args_text(g, rns, dt.generic_args@),
        TypeExpr::Name(tn) => ref_path_text(tn.path@) + tn.name.name@ + generic_args_text(
            g,
            rns,
            tn.generic_args@,
        ),
        TypeExpr::String(ts) => render_type_string(ts),
        TypeExpr::Tuple(t) => docs_text(t.docs) + ("[")@ + render_list(
            g,
            rns,
            t.elements@,
            (",")@,
        ) + ("]")@,
        TypeExpr::Object(o) => docs_text(o.docs) + ("{")@ + fields_text(g, rns, o.fields@) + (
        "}")@,
        TypeExpr::Array(a) => docs_text(a.docs) + ("(")@ + render_expr(g, rns, *a.item) + (
        ")[]")@,
        TypeExpr::Union(u) => docs_text(u.docs) + if u.members@.len() == 0 {
            ("never")@
        } else {
            ("(")@ + render_list(g, rns, u.members@, ("|")@) + (")")@
        },
        TypeExpr::Intersection(x) => docs_text(x.docs) + if x.members@.len() == 0 {
            ("any")@
        } else {
            ("(")@ + render_list(g, rns, x.members@, ("&")@) + (")")@
        },
    }
}

/// Expressions joined by a separator, without a trailing separator.
pub open spec fn render_list(g: TypeGraph, rns: Option<Seq<char>>, es: Seq<TypeExpr>, sep: Seq<char>) -> Seq<char>
    decreases es, 1int,
{
    if es.len() == 0 {
        Seq::empty()
    } else if es.len() == 1 {
        render_expr(g, rns, es[0])
    } else {
        render_list(g, rns, es.drop_last(), sep) + sep + render_expr(g, rns, es.last())
    }
}

/// A generic-argument list: nothing when empty, else comma-joined inside
/// angle brackets.
pub open spec fn generic_args_text(g: TypeGraph, rns: Option<Seq<char>>, args: Seq<TypeExpr>) -> Seq<char>
    decreases args, 2int,
{
    if args.len() == 0 {
        Seq::empty()
    } else {
        ("<")@ + render_list(g, rns, args, (",")@) + (">")@
    }
}

/// One object field: its documentation, its name as a string literal, a
/// question mark when optional, a colon, its type, a semicolon.
pub open spec fn field_text(g: TypeGraph, rns: Option<Seq<char>>, f: ObjectField) -> Seq<char>
    decreases f, 1int,
{
    docs_text(f.docs) + render_type_string(f.name) + (if f.optional {
        ("?")@
    } else {
        Seq::empty()
    }) + (":")@ + render_expr(g, rns, f.ty) + (";")@
}

/// The fields of an object, in input order.
pub open spec fn fields_text(g: TypeGraph, rns: Option<Seq<char>>, fs: Seq<ObjectField>) -> Seq<char>
    decreases fs, 2int,
{
    if fs.len() == 0 {
        Seq::empty()
    } else {
        fields_text(g, rns, fs.drop_last()) + field_text(g, rns, fs.last())
    }
}

/// The lowercase hexadecimal digit for a value below sixteen.
fn hex_char(v: u32) -> (c: char)
    requires
        v < 16,
    ensures
        c == hex_digit(v as int),
{
    if v == 0 {
        '0'
    } else if v == 1 {
        '1'
    } else if v == 2 {
        '2'
    } else if v == 3 {
        '3'
    } else if v == 4 {
        '4'
    } else if v == 5 {
        '5'
    } else if v == 6 {
        '6'
    } else if v == 7 {
        '7'
    } else if v == 8 {
        '8'
    } else if v == 9 {
        '9'
    } else if v == 10 {
        'a'
    } else if v == 11 {
        'b'
    } else if v == 12 {
        'c'
    } else if v == 13 {
        'd'
    } else if v == 14 {
        'e'
    } else {
        'f'
    }
}

/// Relies on `String::push`: appends exactly one character.
#[verifier::external_body]
fn push_char(out: &mut String, c: char)
    ensures
        final(out)@ == old(out)@ + seq![c],
{
    out.push(c);
}

/// Splits a documentation text into its lines.
fn split_lines(s: &str) -> (lines: Vec<String>)
    ensures
        lines@.len() == lines_of(s@).len(),
        forall|i: int| 0 <= i < lines@.len() ==> lines@[i]@ == lines_of(s@)[i],
{
    let n = s.unicode_len();
    let mut lines: Vec<String> = Vec::new();
    let mut cur = String::new();
    let mut i: usize = 0;
    proof {
        assert(s@.subrange(0, n as int) =~= s@);
        assert(lines@.map_values(|l: String| l@) =~= Seq::<Seq<char>>::empty());
        assert(lines@.map_values(|l: String| l@) + split_lines_from(s@, Seq::empty())
            =~= split_lines_from(s@, Seq::empty()));
    }
    while i < n
        invariant
            n == s@.len(),
            0 <= i <= n,
            lines_of(s@) == lines@.map_values(|l: String| l@) + split_lines_from(
                s@.subrange(i as int, n as int),
                cur@,
            ),
        decreases n - i,
    {
        let c = s.get_char(i);
        proof {
            assert(s@.subrange(i as int, n as int)[0] == s@[i as int]);
            assert(s@.subrange(i as int, n as int).drop_first() =~= s@.subrange(
                i + 1,
                n as int,
            ));
        }
        if c == '\n' {
            let ghost old_lines = lines@;
            let ghost old_cur = cur@;
            let cur_len = cur.as_str().unicode_len();
            if cur_len > 0 && cur.as_str().get_char(cur_len - 1) == '\r' {
                let stripped = cur.as_str().substring_char(0, cur_len - 1).to_owned();
                proof {
                    assert(stripped@ =~= strip_cr(old_cur));
                }
                lines.push(stripped);
            } else {
                proof {
                    assert(cur@ =~= strip_cr(old_cur));
                }
                lines.push(cur);
            }
            cur = String::new();
            proof {
                assert(lines@.map_values(|l: String| l@) =~= old_lines.map_values(
                    |l: String| l@,
                ).push(strip_cr(old_cur)));
                assert(old_lines.map_values(|l: String| l@) + (seq![strip_cr(old_cur)]
                    + split_lines_from(s@.subrange(i + 1, n as int), Seq::empty()))
                    =~= lines@.map_values(|l: String| l@) + split_lines_from(
                    s@.subrange(i + 1, n as int),
                    Seq::empty(),
                ));
            }
        } else {
            let ghost prev = cur@;
            push_char(&mut cur, c);
            proof {
                assert(cur@ =~= prev.push(c));
            }
        }
        i = i + 1;
    }
    proof {
        assert(s@.subrange(n as int, n as int) =~= Seq::<char>::empty());
    }
    if !cur.as_str().is_empty() {
        let ghost old_lines = lines@;
        let ghost old_cur = cur@;
        lines.push(cur);
        proof {
            assert(lines@.map_values(|l: String| l@) =~= old_lines.map_values(
                |l: String| l@,
            ).push(old_cur));
            assert(old_lines.map_values(|l: String| l@) + seq![old_cur] =~= lines@.map_values(
                |l: String| l@,
            ));
        }
    } else {
        proof {
            assert(lines@.map_values(|l: String| l@) + Seq::<Seq<char>>::empty()
                =~= lines@.map_values(|l: String| l@));
        }
    }
    lines
}

/// Appends the documentation block of `docs` to `out`.
pub fn emit_docs(docs: &Option<String>, out: &mut String)
    ensures
        final(out)@ == old(out)@ + docs_text(*docs),
{
    match docs {
        Option::None => {
            proof {
                assert(out@ =~= old(out)@ + docs_text(*docs));
            }
        },
        Option::Some(d) => {
            out.append("\n/**\n");
            let lines = split_lines(d.as_str());
            let ghost ls = lines_of(d@);
            let ghost base = out@;
            let mut k: usize = 0;
            while k < lines.len()
                invariant
                    lines@.len() == ls.len(),
                    forall|i: int| 0 <= i < ls.len() ==> lines@[i]@ == ls[i],
                    0 <= k <= lines@.len(),
                    out@ == base + doc_lines_text(ls.subrange(0, k as int)),
                decreases lines@.len() - k,
            {
                let ghost prev = out@;
                out.append(" * ");
                out.append(lines[k].as_str());
                out.append("\n");
                proof {
                    assert(ls.subrange(0, k + 1).drop_last() =~= ls.subrange(0, k as int));
                    assert(ls.subrange(0, k + 1).last() == ls[k as int]);
                    assert(out@ =~= base + doc_lines_text(ls.subrange(0, k + 1)));
                }
                k = k + 1;
            }
            out.append(" */\n");
            proof {
                assert(ls.subrange(0, ls.len() as int) =~= ls);
                assert(out@ =~= old(out)@ + docs_text(*docs));
            }
        },
    }
}

/// Appends `v` as a quoted, escaped string literal to `out`.
pub fn emit_string_literal(v: &str, out: &mut String)
    ensures
        final(out)@ == old(out)@ + string_literal_text(v@),
{
    out.append("\"");
    let n = v.unicode_len();
    let ghost base = out@;
    let mut i: usize = 0;
    while i < n
        invariant
            n == v@.len(),
            0 <= i <= n,
            out@ == base + escape_text(v@.subrange(0, i as int)),
        decreases n - i,
    {
        let c = v.get_char(i);
        proof {
            assert(v@.subrange(0, i + 1).drop_last() =~= v@.subrange(0, i as int));
            assert(v@.subrange(0, i + 1).last() == v@[i as int]);
        }
        if c == '"' {
            out.append("\\\"");
            proof {
                reveal_strlit("\\\"");
                assert(("\\\"")@ =~= escape_char(c));
            }
        } else if c == '\\' {
            out.append("\\\\");
            proof {
                reveal_strlit("\\\\");
                assert(("\\\\")@ =~= escape_char(c));
            }
        } else if c == '\n' {
            out.append("\\n");
            proof {
                reveal_strlit("\\n");
                assert(("\\n")@ =~= escape_char(c));
            }
        } else if c == '\r' {
            out.append("\\r");
            proof {
                reveal_strlit("\\r");
                assert(("\\r")@ =~= escape_char(c));
            }
        } else if c == '\t' {
            out.append("\\t");
            proof {
                reveal_strlit("\\t");
                assert(("\\t")@ =~= escape_char(c));
            }
        } else {
            let code = c as u32;
            if code < 0x20 || (0x7f <= code && code <= 0x9f) {
                out.append("\\u{");
                if code < 16 {
                    push_char(out, hex_char(code));
                } else {
                    push_char(out, hex_char(code / 16));
                    push_char(out, hex_char(code % 16));
                }
                out.append("}");
                proof {
                    reveal_strlit("\\u{");
                    reveal_strlit("}");
                    assert(("\\u{")@ =~= seq!['\\', 'u', '{']);
                    assert(("}")@ =~= seq!['}']);
                }
            } else {
                push_char(out, c);
                proof {
                    assert(seq![c] =~= escape_char(c));
                }
            }
        }
        proof {
            assert(out@ =~= base + escape_text(v@.subrange(0, i + 1)));
        }
        i = i + 1;
    }
    out.append("\"");
    proof {
        reveal_strlit("\"");
        assert(v@.subrange(0, n as int) =~= v@);
        assert(("\"")@ =~= seq!['"']);
        assert(out@ =~= old(out)@ + string_literal_text(v@));
    }
}

/// Appends a string literal node: its documentation block, then the quoted
/// literal.
pub fn emit_type_string(ts: &TypeString, out: &mut String)
    ensures
        final(out)@ == old(out)@ + render_type_string(*ts),
{
    emit_docs(&ts.docs, out);
    emit_string_literal(ts.value.as_str(), out);
    proof {
        assert(out@ =~= old(out)@ + render_type_string(*ts));
    }
}

/// Appends every path segment followed by a dot.
pub fn emit_ref_path(path: &Vec<crate::ir::Ident>, out: &mut String)
    ensures
        final(out)@ == old(out)@ + ref_path_text(path@),
{
    let ghost base = out@;
    let mut k: usize = 0;
    while k < path.len()
        invariant
            0 <= k <= path@.len(),
            out@ == base + ref_path_text(path@.subrange(0, k as int)),
        decreases path@.len() - k,
    {
        out.append(path[k].name.as_str());
        out.append(".");
        proof {
            assert(path@.subrange(0, k + 1).drop_last() =~= path@.subrange(0, k as int));
            assert(path@.subrange(0, k + 1).last() == path@[k as int]);
            assert(out@ =~= base + ref_path_text(path@.subrange(0, k + 1)));
        }
        k = k + 1;
    }
    proof {
        assert(path@.subrange(0, path@.len() as int) =~= path@);
    }
}

/// Appends the identifiers joined by `sep`, without a trailing separator.
pub fn emit_joined_idents(ids: &Vec<crate::ir::Ident>, sep: &str, out: &mut String)
    ensures
        final(out)@ == old(out)@ + joined_idents_text(ids@, sep@),
{
    let ghost base = out@;
    let mut k: usize = 0;
    while k < ids.len()
        invariant
            0 <= k <= ids@.len(),
            out@ == base + joined_idents_text(ids@.subrange(0, k as int), sep@),
        decreases ids@.len() - k,
    {
        if k > 0 {
            out.append(sep);
        }
        out.append(ids[k].name.as_str());
        proof {
            assert(ids@.subrange(0, k + 1).drop_last() =~= ids@.subrange(0, k as int));
            assert(ids@.subrange(0, k + 1).last() == ids@[k as int]);
            assert(ids@.subrange(0, k + 1)[0] == ids@[0]);
            assert(out@ =~= base + joined_idents_text(ids@.subrange(0, k + 1), sep@));
        }
        k = k + 1;
    }
    proof {
        assert(ids@.subrange(0, ids@.len() as int) =~= ids@);
    }
}

/// Appends the generic-variable list: nothing when empty, else comma-joined
/// inside angle brackets.
pub fn emit_generic_vars(vars: &Vec<crate::ir::Ident>, out: &mut String)
    ensures
        final(out)@ == old(out)@ + generic_vars_text(vars@),
{
    if vars.len() > 0 {
        out.append("<");
        emit_joined_idents(vars, ",", out);
        out.append(">");
        proof {
            assert(out@ =~= old(out)@ + generic_vars_text(vars@));
        }
    }
}

/// Appends the rendering of one type expression.
#[verifier::rlimit(100)]
pub fn emit_type_expr(g: &TypeGraph, rns: &Option<String>, e: &TypeExpr, out: &mut String)
    requires
        g.wf(),
        expr_wf(g.defs@.len() as int, *e),
    ensures
        final(out)@ == old(out)@ + render_expr(*g, opt_text(*rns), *e),
    decreases *e, 0int,
{
    match e {
        TypeExpr::Ref(TypeInfo::Native(n)) => {
            proof {
                reveal_with_fuel(expr_refs, 2);
                assert(expr_refs(*e) == expr_refs(*n.expr));
            }
            emit_type_expr(g, rns, &*n.expr, out);
        },
        TypeExpr::Ref(TypeInfo::Defined(dt)) => {
            match rns {
                Option::Some(r) => {
                    out.append(r.as_str());
                    out.append(".");
                },
                Option::None => {},
            }
            proof {
                reveal_with_fuel(expr_refs, 2);
                assert(expr_refs(*e) =~= exprs_refs(dt.generic_args@).insert(dt.def as int));
                assert(expr_refs(*e).contains(dt.def as int));
                assert forall|d: int| exprs_refs(dt.generic_args@).contains(d) implies expr_refs(
                    *e,
                ).contains(d) by {
                    assert(exprs_refs(dt.generic_args@).insert(dt.def as int).contains(d));
                }
                assert forall|d: int| exprs_refs(dt.generic_args@).contains(d) implies 0 <= d
                    < g.defs@.len() by {
                    assert(expr_refs(*e).contains(d));
                }
            }
            let defn = &g.defs[dt.def];
            emit_ref_path(&defn.path, out);
            out.append(defn.name.name.as_str());
            emit_generic_args(g, rns, &dt.generic_args, out);
            proof {
                assert(out@ =~= old(out)@ + render_expr(*g, opt_text(*rns), *e));
            }
        },
        TypeExpr::Name(tn) => {
            proof {
                assert(*e == TypeExpr::Name(*tn));
                assert(expr_refs(*e) == exprs_refs(tn.generic_args@));
            }
            emit_ref_path(&tn.path, out);
            out.append(tn.name.name.as_str());
            emit_generic_args(g, rns, &tn.generic_args, out);
            proof {
                assert(out@ =~= old(out)@ + render_expr(*g, opt_text(*rns), *e));
            }
        },
        TypeExpr::String(ts) => {
            emit_type_string(ts, out);
        },
        TypeExpr::Tuple(t) => {
            proof {
                assert(*e == TypeExpr::Tuple(*t));
                assert(expr_refs(*e) == exprs_refs(t.elements@));
            }
            emit_docs(&t.docs, out);
            out.append("[");
            emit_expr_list(g, rns, &t.elements, ",", out);
            out.append("]");
            proof {
                assert(out@ =~= old(out)@ + render_expr(*g, opt_text(*rns), *e));
            }
        },
        TypeExpr::Object(o) => {
            proof {
                assert(*e == TypeExpr::Object(*o));
                assert(expr_refs(*e) == fields_refs(o.fields@));
            }
            emit_docs(&o.docs, out);
            out.append("{");
            emit_object_fields(g, rns, &o.fields, out);
            out.append("}");
            proof {
                assert(out@ =~= old(out)@ + render_expr(*g, opt_text(*rns), *e));
            }
        },
        TypeExpr::Array(a) => {
            proof {
                assert(*e == TypeExpr::Array(*a));
                assert(expr_refs(*e) == expr_refs(*a.item));
            }
            emit_docs(&a.docs, out);
            out.append("(");
            emit_type_expr(g, rns, &*a.item, out);
            out.append(")[]");
            proof {
                assert(out@ =~= old(out)@ + render_expr(*g, opt_text(*rns), *e));
            }
        },
        TypeExpr::Union(u) => {
            proof {
                assert(*e == TypeExpr::Union(*u));
                assert(expr_refs(*e) == exprs_refs(u.members@));
            }
            emit_docs(&u.docs, out);
            if u.members.len() == 0 {
                out.append("never");
            } else {
                out.append("(");
                emit_expr_list(g, rns, &u.members, "|", out);
                out.append(")");
            }
            proof {
                assert(out@ =~= old(out)@ + render_expr(*g, opt_text(*rns), *e));
            }
        },
        TypeExpr::Intersection(x) => {
            proof {
                assert(*e == TypeExpr::Intersection(*x));
                assert(expr_refs(*e) == exprs_refs(x.members@));
            }
            emit_docs(&x.docs, out);
            if x.members.len() == 0 {
                out.append("any");
            } else {
                out.append("(");
                emit_expr_list(g, rns, &x.members, "&", out);
                out.append(")");
            }
            proof {
                assert(out@ =~= old(out)@ + render_expr(*g, opt_text(*rns), *e));
            }
        },
    }
}

/// Appends the expressions joined by `sep`, without a trailing separator.
pub fn emit_expr_list(
    g: &TypeGraph,
    rns: &Option<String>,
    es: &Vec<TypeExpr>,
    sep: &str,
    out: &mut String,
)
    requires
        g.wf(),
        forall|d: int| #[trigger] exprs_refs(es@).contains(d) ==> 0 <= d < g.defs@.len(),
    ensures
        final(out)@ == old(out)@ + render_list(*g, opt_text(*rns), es@, sep@),
    decreases es@, 1int,
{
    let ghost base = out@;
    let mut k: usize = 0;
    while k < es.len()
        invariant
            g.wf(),
            forall|d: int| #[trigger] exprs_refs(es@).contains(d) ==> 0 <= d < g.defs@.len(),
            0 <= k <= es@.len(),
            out@ == base + render_list(*g, opt_text(*rns), es@.subrange(0, k as int), sep@),
        decreases es@.len() - k,
    {
        if k > 0 {
            out.append(sep);
        }
        proof {
            lemma_exprs_refs_mem(es@, k as int);
        }
        emit_type_expr(g, rns, &es[k], out);
        proof {
            assert(es@.subrange(0, k + 1).drop_last() =~= es@.subrange(0, k as int));
            assert(es@.subrange(0, k + 1).last() == es@[k as int]);
            assert(es@.subrange(0, k + 1)[0] == es@[0]);
            assert(out@ =~= base + render_list(*g, opt_text(*rns), es@.subrange(0, k + 1), sep@));
        }
        k = k + 1;
    }
    proof {
        assert(es@.subrange(0, es@.len() as int) =~= es@);
    }
}

/// Appends the generic-argument list: nothing when empty, else comma-joined
/// inside angle brackets.
pub fn emit_generic_args(
    g: &TypeGraph,
    rns: &Option<String>,
    args: &Vec<TypeExpr>,
    out: &mut String,
)
    requires
        g.wf(),
        forall|d: int| #[trigger] exprs_refs(args@).contains(d) ==> 0 <= d < g.defs@.len(),
    ensures
        final(out)@ == old(out)@ + generic_args_text(*g, opt_text(*rns), args@),
    decreases args@, 2int,
{
    if args.len() > 0 {
        out.append("<");
        emit_expr_list(g, rns, args, ",", out);
        out.append(">");
        proof {
            assert(out@ =~= old(out)@ + generic_args_text(*g, opt_text(*rns), args@));
        }
    }
}

/// Appends the fields of an object, in input order.
pub fn emit_object_fields(
    g: &TypeGraph,
    rns: &Option<String>,
    fs: &Vec<ObjectField>,
    out: &mut String,
)
    requires
        g.wf(),
        forall|d: int| #[trigger] fields_refs(fs@).contains(d) ==> 0 <= d < g.defs@.len(),
    ensures
        final(out)@ == old(out)@ + fields_text(*g, opt_text(*rns), fs@),
    decreases fs@, 2int,
{
    let ghost base = out@;
    let mut k: usize = 0;
    while k < fs.len()
        invariant
            g.wf(),
            forall|d: int| #[trigger] fields_refs(fs@).contains(d) ==> 0 <= d < g.defs@.len(),
            0 <= k <= fs@.len(),
            out@ == base + fields_text(*g, opt_text(*rns), fs@.subrange(0, k as int)),
        decreases fs@.len() - k,
    {
        let f = &fs[k];
        proof {
            reveal_with_fuel(fields_text, 2);
            assert(*f == fs@[k as int]);
            assert(field_text(*g, opt_text(*rns), fs@[k as int]) == docs_text(f.docs)
                + render_type_string(f.name) + (if f.optional {
                ("?")@
            } else {
                Seq::empty()
            }) + (":")@ + render_expr(*g, opt_text(*rns), f.ty) + (";")@);
        }
        emit_docs(&f.docs, out);
        emit_type_string(&f.name, out);
        if f.optional {
            out.append("?");
        }
        out.append(":");
        proof {
            lemma_fields_refs_mem(fs@, k as int);
        }
        emit_type_expr(g, rns, &f.ty, out);
        out.append(";");
        proof {
            assert(fs@.subrange(0, k + 1).drop_last() =~= fs@.subrange(0, k as int));
            assert(fs@.subrange(0, k + 1).last() == fs@[k as int]);
            assert(out@ =~= base + fields_text(*g, opt_text(*rns), fs@.subrange(0, k + 1)));
        }
        k = k + 1;
    }
    proof {
        assert(fs@.subrange(0, fs@.len() as int) =~= fs@);
    }
}

/// Law: an empty union renders as the bottom-type keyword, and an empty
/// intersection renders as the top-type keyword.
pub proof fn lemma_degenerate_members(
    g: TypeGraph,
    rns: Option<Seq<char>>,
    u: crate::ir::TypeUnion,
    x: crate::ir::TypeIntersection,
)
    requires
        u.docs is None,
        u.members@.len() == 0,
        x.docs is None,
        x.members@.len() == 0,
    ensures
        render_expr(g, rns, TypeExpr::Union(u)) == ("never")@,
        render_expr(g, rns, TypeExpr::Intersection(x)) == ("any")@,
{
    assert(render_expr(g, rns, TypeExpr::Union(u)) =~= ("never")@);
    assert(render_expr(g, rns, TypeExpr::Intersection(x)) =~= ("any")@);
}

/// Law: two uses of one definition carry their own generic-argument lists at
/// the use site; the declaration itself is shared (the closure lists the
/// definition once, as [`crate::closure::lemma_closure_complete_exactly_once`]
/// states).
pub proof fn lemma_generic_sharing(
    g: TypeGraph,
    rns: Option<Seq<char>>,
    a1: crate::ir::DefinedTypeInfo,
    a2: crate::ir::DefinedTypeInfo,
)
    requires
        a1.def == a2.def,
    ensures
        render_expr(g, rns, TypeExpr::Ref(TypeInfo::Defined(a1))) == ns_prefix_text(rns)
            + ref_path_text(g.defs@[a1.def as int].path@) + g.defs@[a1.def as int].name.name@
            + generic_args_text(g, rns, a1.generic_args@),
        render_expr(g, rns, TypeExpr::Ref(TypeInfo::Defined(a2))) == ns_prefix_text(rns)
            + ref_path_text(g.defs@[a2.def as int].path@) + g.defs@[a2.def as int].name.name@
            + generic_args_text(g, rns, a2.generic_args@),
{
}


} // verus!
