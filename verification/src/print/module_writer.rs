//! Printing of module headers, imports, top-level declarations and whole
//! modules.

use vstd::prelude::*;

use super::comment_slots::{slot_members, CommentSlots};
use super::doc_groups::{docs_groups, groups_view, parse_docs_groups};
use super::exposing_layout::{
    all_indices, compact_exposing_text, exposed_item_sort_key, exposed_name, exposed_text, exposing_written, identity,
    item_list_text, sorted_by_name, sorted_items,
};
use super::import_layout::{
    build_import_plan, flatten_groups, is_grouping, name_key, same_name,
    sorted_by_module_name, ImportGroup,
};
use super::comments::{comment_run, comment_text, doc_comment_text, lemma_comment_run_step, picked_comments};
use super::exprs::{
    impl_shape, impl_written, lemma_prefixed_lines_step, nl, prefixed_lines, simple_function_impl_text, simple_text,
};
use super::patterns::pattern_text;
use super::type_layout::{
    content_multi, ctor_arg_flat, ctor_arg_multi, ctor_arg_prints_multiline, expands_record, signature_line,
    type_ann_spans_multi_lines,
};
use super::types::{dotted, type_atomic_text, type_text};
use super::{column_of, spaces, PrintConfig, PrintStyle, Printer};
use crate::comment::Comment;
use crate::ident::Ident;
use crate::declaration::{CustomType, Declaration, InfixDef, TypeAlias, ValueConstructor};
use crate::type_annotation::TypeAnnotation;
use crate::exposing::{ExposedItem, Exposing};
use crate::expr::{Function, Signature};
use crate::file::ElmModule;
use crate::import::Import;
use crate::module_header::ModuleHeader;
use crate::node::Spanned;
use crate::operator::InfixDirection;
use crate::sorting::{is_stable_sort, sort_indices};
use crate::text::chars_eq;
use super::decl_emission::{
    commented_decls_text, decls_with, lemma_no_comments_empty_slots, plain_decls_text, slot_views, slots_fit, trailing_comments_text,
};

verus! {

broadcast use super::group_text_growth;

/// The start of a module header: the keywords and the module name.
pub open spec fn header_prefix(h: ModuleHeader) -> Seq<char> {
    match h {
        ModuleHeader::Normal { name, .. } => "module "@ + dotted(name.value@),
        ModuleHeader::Port { name, .. } => "port module "@ + dotted(name.value@),
        ModuleHeader::Effect { name, .. } => "effect module "@ + dotted(name.value@),
    }
}

/// The fields of an effect module's `where` clause.
pub open spec fn effect_fields_text(command: Option<Spanned<Ident>>, subscription: Option<Spanned<Ident>>) -> Seq<
    char,
> {
    let cmd = match command {
        Some(c) => "command = "@ + c.value@,
        None => Seq::empty(),
    };
    match subscription {
        Some(sub) => cmd + (if command is Some {
            ", "@
        } else {
            Seq::empty()
        }) + "subscription = "@ + sub.value@,
        None => cmd,
    }
}

/// A module header up to its exposing list.
pub open spec fn header_lead(h: ModuleHeader) -> Seq<char> {
    match h {
        ModuleHeader::Effect { command, subscription, .. } => header_prefix(h) + " where { "@ + effect_fields_text(
            command,
            subscription,
        ) + " } exposing "@,
        _ => header_prefix(h) + " exposing "@,
    }
}

/// The exposing list of a module header.
pub open spec fn header_exposing(h: ModuleHeader) -> Exposing {
    match h {
        ModuleHeader::Normal { exposing, .. } => exposing.value,
        ModuleHeader::Port { exposing, .. } => exposing.value,
        ModuleHeader::Effect { exposing, .. } => exposing.value,
    }
}

/// `import M as A` in the compact layout.
pub open spec fn compact_import_head(import: Import) -> Seq<char> {
    "import "@ + dotted(import.module_name.value@) + match import.alias {
        Some(a) => " as "@ + dotted(a.value@),
        None => Seq::empty(),
    }
}

/// An import in the compact layout: `import M as A exposing (...)` on one
/// line, as in the source.
pub open spec fn compact_import_text(import: Import) -> Seq<char> {
    compact_import_head(import) + match import.exposing {
        Some(e) => " exposing "@ + compact_exposing_text(e.value),
        None => Seq::empty(),
    }
}

/// The imports in the compact layout, each on a line of its own.
pub open spec fn compact_imports_text(imports: Seq<Spanned<Import>>) -> Seq<char>
    decreases imports.len(),
{
    if imports.len() == 0 {
        Seq::empty()
    } else {
        compact_imports_text(imports.drop_last()) + compact_import_text(imports.last().value) + seq!['\n']
    }
}

/// The module documentation after a blank line, if there is one.
pub open spec fn module_doc_text(doc: Option<Spanned<String>>, pretty: bool) -> Seq<char> {
    match doc {
        Some(d) => seq!['\n'] + doc_comment_text(d.value@, pretty) + seq!['\n'],
        None => Seq::empty(),
    }
}

/// A module without comments in the compact layout, the parts of its
/// declarations at `cols` columns: the header, its documentation after a
/// blank line, the imports after a blank line, the declarations each after
/// a blank line, and a final line break; `None` when a declaration has a
/// part laid out over several lines.
pub open spec fn compact_module_text(module: ElmModule, cols: nat) -> Option<Seq<char>> {
    let h = module.header.value;
    let doc = module_doc_text(module.module_documentation, false);
    let imports = if module.imports@.len() > 0 {
        seq!['\n'] + compact_imports_text(module.imports@)
    } else {
        Seq::empty()
    };
    match plain_decls_text(module.declarations@, false, cols) {
        Some(d) => Some(header_lead(h) + compact_exposing_text(header_exposing(h)) + seq!['\n'] + doc + imports + d
            + seq!['\n']),
        None => None,
    }
}

/// The first `n` imports of a module in the compact layout after
/// `before`, each after the comments of its slot (`slots`), each comment
/// and each import on a line of its own.
pub open spec fn commented_imports_text(module: ElmModule, slots: Seq<Seq<usize>>, before: Seq<char>, n: nat) -> Seq<
    char,
>
    decreases n,
{
    if n == 0 {
        Seq::empty()
    } else {
        let a = commented_imports_text(module, slots, before, (n - 1) as nat);
        a + comment_run(before + a, picked_comments(module.comments@, slots[n - 1]), false, Seq::empty(), seq!['\n'])
            + compact_import_text(module.imports@[n - 1].value) + seq!['\n']
    }
}

/// The start offsets of a module's comments.
pub open spec fn comment_offsets(module: ElmModule) -> Seq<usize> {
    Seq::new(module.comments@.len(), |i: int| module.comments@[i].span.start.offset)
}

/// The comment slots of a module for the comments in the order `order`:
/// one per import, one per declaration and one after them.
pub open spec fn module_slots(module: ElmModule, skip_internal: bool, order: Seq<usize>) -> Seq<Seq<usize>> {
    Seq::new(
        module.imports@.len() + module.declarations@.len() + 1,
        |s: int| slot_members(module, skip_internal, order, s),
    )
}

/// A module in the compact layout after `before`, its comments in the
/// slots `slots`: the header, the documentation after a blank line, a
/// blank line and the imports each after its comments, the declarations
/// each after what goes before it (`commented_decls_text`), the comments
/// after the last declaration (`trailing_comments_text`) and a final line
/// break; `None` when a declaration has no text at `cols` columns.
pub open spec fn commented_module_text(
    module: ElmModule,
    slots: Seq<Seq<usize>>,
    cols: nat,
    before: Seq<char>,
) -> Option<Seq<char>> {
    let h = module.header.value;
    let head = header_lead(h) + compact_exposing_text(header_exposing(h)) + seq!['\n'] + module_doc_text(
        module.module_documentation,
        false,
    );
    let ni = module.imports@.len();
    let nd = module.declarations@.len();
    let imps = if ni > 0 {
        seq!['\n'] + commented_imports_text(module, slots, before + head + seq!['\n'], ni)
    } else {
        Seq::empty()
    };
    let b2 = before + head + imps;
    match commented_decls_text(module, slots, ni as int, false, cols, b2, nd) {
        Some(d) => Some(head + imps + d + trailing_comments_text(b2 + d, module, slots[(ni + nd) as int], false) + seq!['\n']),
        None => None,
    }
}

/// A module in the compact layout after `before`, its comments in the
/// slots `slots` and its declarations written as `ds`: the header, the
/// documentation after a blank line, a blank line and the imports each
/// after its comments, the declarations each after what goes before it
/// (`decls_with`), the comments after the last declaration
/// (`trailing_comments_text`) and a final line break.
pub open spec fn module_text_with(
    module: ElmModule,
    slots: Seq<Seq<usize>>,
    before: Seq<char>,
    ds: Seq<Seq<char>>,
) -> Seq<char> {
    let h = module.header.value;
    let head = header_lead(h) + compact_exposing_text(header_exposing(h)) + seq!['\n'] + module_doc_text(
        module.module_documentation,
        false,
    );
    let ni = module.imports@.len();
    let nd = module.declarations@.len();
    let imps = if ni > 0 {
        seq!['\n'] + commented_imports_text(module, slots, before + head + seq!['\n'], ni)
    } else {
        Seq::empty()
    };
    let b2 = before + head + imps;
    let d = decls_with(module, slots, ni as int, false, b2, ds);
    head + imps + d + trailing_comments_text(b2 + d, module, slots[(ni + nd) as int], false) + seq!['\n']
}

/// `after` is `before` followed by a module in the compact layout: its
/// comments in the slots of their stable order by offset, each declaration
/// written as its `declaration_text` at `cols` columns where it has one and
/// in the layout of its kind (`decl_shape`) in any case
/// (`module_text_with`).
pub open spec fn compact_module_written(before: Seq<char>, after: Seq<char>, module: ElmModule, cols: nat) -> bool {
    before.is_prefix_of(after) && exists|order: Seq<usize>, ds: Seq<Seq<char>>|
        #[trigger] module_text_with(module, module_slots(module, false, order), before, ds) == after.subrange(
            before.len() as int,
            after.len() as int,
        ) && is_stable_sort(comment_offsets(module), order) && ds.len() == module.declarations@.len() && (forall|
            k: int,
        |
            0 <= k < ds.len() ==> (declaration_text(module.declarations@[k].value, false, cols) matches Some(t)
                ==> #[trigger] ds[k] == t)) && (forall|k: int|
            0 <= k < ds.len() ==> decl_shape(module.declarations@[k].value, #[trigger] ds[k], false, cols))
}

/// A function declaration with the signature's text `sig` and the body's
/// text `b`: its documentation, the signature, and the defining equation
/// (`impl_shape`) at `inner` columns.
pub open spec fn func_shape(f: Function, pretty: bool, inner: nat, sig: Seq<char>, b: Seq<char>) -> Seq<char> {
    doc_line(f.documentation, pretty) + sig + impl_shape(f.declaration.value, pretty, inner, b)
}

/// `after` is `before` followed by a function declaration laid out as
/// `func_shape`.
pub open spec fn func_written(before: Seq<char>, after: Seq<char>, f: Function, pretty: bool, inner: nat) -> bool {
    before.is_prefix_of(after) && exists|sig: Seq<char>, b: Seq<char>|
        #[trigger] func_shape(f, pretty, inner, sig, b) == after.subrange(before.len() as int, after.len() as int)
}

/// A declaration's text `d` has the layout of its kind: for a function,
/// `func_shape`.
pub open spec fn decl_shape(decl: Declaration, d: Seq<char>, pretty: bool, inner: nat) -> bool {
    match decl {
        Declaration::FunctionDeclaration(f) => func_written(Seq::empty(), d, f, pretty, inner),
        _ => true,
    }
}

/// The `@docs` groups that lay out a module's exposing list in elm-format
/// layout: those of its documentation, or `before` when it has none.
pub open spec fn module_docs(module: ElmModule, before: Seq<Seq<Seq<char>>>) -> Seq<Seq<Seq<char>>> {
    match module.module_documentation {
        Some(d) => docs_groups(d.value@),
        None => before,
    }
}

/// A module without comments in elm-format layout is written after
/// `old_text`: the header with its exposing list laid out after the
/// `@docs` groups `docs`, the documentation after a blank line, the
/// imports (vertical exposing lists at `cols` and `cols2` columns), the
/// declarations, each after its separator, their parts at `cols` columns,
/// and a final line break.
pub open spec fn pretty_module_written(
    old_text: Seq<char>,
    new_text: Seq<char>,
    module: ElmModule,
    docs: Seq<Seq<Seq<char>>>,
    cols: nat,
    cols2: nat,
) -> bool {
    let h = module.header.value;
    exists|head: Seq<char>, body: Seq<char>|
        #![trigger exposing_written(old_text + header_lead(h), head, header_exposing(h), true, true, docs, cols), pretty_imports_part(head + seq!['\n'] + module_doc_text(module.module_documentation, true), body, module.imports@, cols, cols2)]
        exposing_written(old_text + header_lead(h), head, header_exposing(h), true, true, docs, cols)
            && pretty_imports_part(
            head + seq!['\n'] + module_doc_text(module.module_documentation, true),
            body,
            module.imports@,
            cols,
            cols2,
        ) && new_text == body + plain_decls_text(module.declarations@, true, cols)->0 + seq!['\n']
}

/// The imports of a module in elm-format layout after `before`: nothing
/// when there are none, otherwise a blank line and the imports sorted by
/// module name, one per line.
pub open spec fn pretty_imports_part(
    before: Seq<char>,
    after: Seq<char>,
    imports: Seq<Spanned<Import>>,
    inner: nat,
    inner2: nat,
) -> bool {
    if imports.len() == 0 {
        after == before
    } else {
        exists|gs: Seq<Seq<usize>>, texts: Seq<Seq<char>>|
            #[trigger] group_lines(before + seq!['\n'], texts, imports, gs, inner, inner2) && sorted_by_module_name(
                imports,
                flatten_groups(gs),
            ) && is_grouping(imports, flatten_groups(gs), gs) && texts.last() == after
    }
}

proof fn lemma_pretty_module_written(
    old_text: Seq<char>,
    head: Seq<char>,
    after_doc: Seq<char>,
    body: Seq<char>,
    new_text: Seq<char>,
    module: ElmModule,
    docs: Seq<Seq<Seq<char>>>,
    cols: nat,
    cols2: nat,
)
    requires
        plain_decls_text(module.declarations@, true, cols) is Some,
        exposing_written(
            old_text + header_lead(module.header.value),
            head,
            header_exposing(module.header.value),
            true,
            true,
            docs,
            cols,
        ),
        after_doc == head + seq!['\n'] + module_doc_text(module.module_documentation, true),
        pretty_imports_part(after_doc, body, module.imports@, cols, cols2),
        new_text == body + plain_decls_text(module.declarations@, true, cols)->0 + seq!['\n'],
    ensures
        pretty_module_written(old_text, new_text, module, docs, cols, cols2),
{
}

/// Putting the parts of a compact module together, whatever its
/// declarations' texts.
#[verifier::spinoff_prover]
#[verifier::rlimit(100)]
proof fn lemma_module_text_with(
    old_text: Seq<char>,
    after_doc: Seq<char>,
    after_imports: Seq<char>,
    after_decls: Seq<char>,
    after_trailing: Seq<char>,
    new_text: Seq<char>,
    module: ElmModule,
    sv: Seq<Seq<usize>>,
    ds: Seq<Seq<char>>,
)
    requires
        after_doc == old_text + header_lead(module.header.value) + compact_exposing_text(
            header_exposing(module.header.value),
        ) + seq!['\n'] + module_doc_text(module.module_documentation, false),
        after_imports == after_doc + (if module.imports@.len() > 0 {
            seq!['\n'] + commented_imports_text(module, sv, after_doc + seq!['\n'], module.imports@.len())
        } else {
            Seq::empty()
        }),
        after_decls == after_imports + decls_with(module, sv, module.imports@.len() as int, false, after_imports, ds),
        after_trailing == after_decls + trailing_comments_text(
            after_decls,
            module,
            sv[(module.imports@.len() + module.declarations@.len()) as int],
            false,
        ),
        new_text == after_trailing + seq!['\n'],
    ensures
        module_text_with(module, sv, old_text, ds) == new_text.subrange(old_text.len() as int, new_text.len() as int),
{
    let h = module.header.value;
    let head = header_lead(h) + compact_exposing_text(header_exposing(h)) + seq!['\n'] + module_doc_text(
        module.module_documentation,
        false,
    );
    let ni = module.imports@.len();
    let imps = if ni > 0 {
        seq!['\n'] + commented_imports_text(module, sv, old_text + head + seq!['\n'], ni)
    } else {
        Seq::empty()
    };
    assert(after_doc =~= old_text + head);
    assert(old_text + head + seq!['\n'] == after_doc + seq!['\n']);
    assert(after_imports =~= old_text + head + imps);
    let b2 = old_text + head + imps;
    let d = decls_with(module, sv, ni as int, false, b2, ds);
    let tr = trailing_comments_text(b2 + d, module, sv[(ni + module.declarations@.len()) as int], false);
    assert(new_text =~= old_text + (head + imps + d + tr + seq!['\n']));
}

/// Putting the parts of a compact module with comments together.
#[verifier::spinoff_prover]
#[verifier::rlimit(100)]
proof fn lemma_commented_module_text(
    old_text: Seq<char>,
    after_doc: Seq<char>,
    after_imports: Seq<char>,
    after_decls: Seq<char>,
    after_trailing: Seq<char>,
    new_text: Seq<char>,
    module: ElmModule,
    sv: Seq<Seq<usize>>,
    cols: nat,
)
    requires
        after_doc == old_text + header_lead(module.header.value) + compact_exposing_text(
            header_exposing(module.header.value),
        ) + seq!['\n'] + module_doc_text(module.module_documentation, false),
        after_imports == after_doc + (if module.imports@.len() > 0 {
            seq!['\n'] + commented_imports_text(module, sv, after_doc + seq!['\n'], module.imports@.len())
        } else {
            Seq::empty()
        }),
        commented_decls_text(module, sv, module.imports@.len() as int, false, cols, after_imports, module.declarations@.len())
            matches Some(d) ==> after_decls == after_imports + d,
        after_trailing == after_decls + trailing_comments_text(
            after_decls,
            module,
            sv[(module.imports@.len() + module.declarations@.len()) as int],
            false,
        ),
        new_text == after_trailing + seq!['\n'],
    ensures
        commented_module_text(module, sv, cols, old_text) matches Some(t) ==> new_text == old_text + t,
{
    let h = module.header.value;
    let head = header_lead(h) + compact_exposing_text(header_exposing(h)) + seq!['\n'] + module_doc_text(
        module.module_documentation,
        false,
    );
    let ni = module.imports@.len();
    let nd = module.declarations@.len();
    assert(after_doc =~= old_text + head);
    let imps = if ni > 0 {
        seq!['\n'] + commented_imports_text(module, sv, old_text + head + seq!['\n'], ni)
    } else {
        Seq::empty()
    };
    assert(old_text + head + seq!['\n'] == after_doc + seq!['\n']);
    assert(after_imports =~= old_text + head + imps);
    let b2 = old_text + head + imps;
    if let Some(d) = commented_decls_text(module, sv, ni as int, false, cols, b2, nd) {
        assert(after_decls == b2 + d);
        let tr = trailing_comments_text(b2 + d, module, sv[(ni + nd) as int], false);
        assert(commented_module_text(module, sv, cols, old_text) == Some(head + imps + d + tr + seq!['\n']));
        assert(new_text =~= old_text + (head + imps + d + tr + seq!['\n']));
    }
}

proof fn lemma_compact_module_text(
    old_text: Seq<char>,
    after_doc: Seq<char>,
    before_decls: Seq<char>,
    new_text: Seq<char>,
    module: ElmModule,
    cols: nat,
)
    requires
        compact_module_text(module, cols) is Some,
        after_doc == old_text + header_lead(module.header.value) + compact_exposing_text(
            header_exposing(module.header.value),
        ) + seq!['\n'] + module_doc_text(module.module_documentation, false),
        before_decls == after_doc + (if module.imports@.len() > 0 {
            seq!['\n'] + compact_imports_text(module.imports@)
        } else {
            Seq::empty()
        }),
        new_text == before_decls + plain_decls_text(module.declarations@, false, cols)->0 + seq!['\n'],
    ensures
        new_text == old_text + compact_module_text(module, cols)->0,
{
    assert(new_text =~= old_text + compact_module_text(module, cols)->0);
}

/// An exposing list of an import in elm-format layout is written after
/// `old_text` on one line: `(..)`, or the items sorted by name.
pub open spec fn sorted_exposing_written(old_text: Seq<char>, new_text: Seq<char>, exposing: Exposing) -> bool {
    match exposing {
        Exposing::All(_) => new_text == old_text + seq!['(', '.', '.', ')'],
        Exposing::Explicit(items) => exists|ord: Seq<usize>|
            #[trigger] sorted_by_name(items@, identity(items@.len()), ord) && new_text == old_text + (seq!['(']
                + item_list_text(items@, ord) + seq![')']),
    }
}

/// The items at the given indices, each after the first on a new line at
/// `cols` after `, `.
pub open spec fn item_lines_text(items: Seq<Spanned<ExposedItem>>, which: Seq<usize>, cols: nat) -> Seq<char>
    decreases which.len(),
{
    if which.len() == 0 {
        Seq::empty()
    } else if which.len() == 1 {
        exposed_text(items[which[0] as int].value)
    } else {
        item_lines_text(items, which.drop_last(), cols) + nl(cols) + seq![',', ' '] + exposed_text(
            items[which.last() as int].value,
        )
    }
}

/// A constructor argument on a line of its own, where it stays on that line.
pub open spec fn ctor_arg_line(a: Spanned<TypeAnnotation>, pretty: bool) -> Option<Seq<char>> {
    if ctor_arg_flat(a) {
        Some(type_atomic_text(a.value, pretty))
    } else {
        None
    }
}

/// `import M as A` in elm-format layout: an alias equal to the module name
/// goes.
pub open spec fn pretty_import_head(import: Import) -> Seq<char> {
    "import "@ + dotted(import.module_name.value@) + match import.alias {
        Some(a) => if a.value@.map_values(|s: String| s@) == import.module_name.value@.map_values(
            |s: String| s@,
        ) {
            Seq::empty()
        } else {
            " as "@ + dotted(a.value@)
        },
        None => Seq::empty(),
    }
}

/// The exposing list of an import is explicit and spanned several source
/// lines: elm-format layout then writes it below the import, one item per
/// line.
pub open spec fn import_exposing_vertical(import: Import) -> bool {
    match import.exposing {
        Some(e) => e.span.end.line > e.span.start.line && e.span.start.line != 0 && e.value is Explicit,
        None => false,
    }
}

/// An import in elm-format layout whose exposing list stays on its line is
/// written after `old_text`.
pub open spec fn pretty_import_written(old_text: Seq<char>, new_text: Seq<char>, import: Import) -> bool {
    match import.exposing {
        Some(e) => sorted_exposing_written(old_text + pretty_import_head(import) + " exposing "@, new_text, e.value),
        None => new_text == old_text + pretty_import_head(import),
    }
}

/// The exposed items of an explicit exposing list of an import.
pub open spec fn import_items(import: Import) -> Seq<Spanned<ExposedItem>> {
    match import.exposing {
        Some(e) => match e.value {
            Exposing::Explicit(items) => items@,
            _ => Seq::empty(),
        },
        None => Seq::empty(),
    }
}

/// An import in elm-format layout is written after `old_text`: as
/// `pretty_import_written`, or, when its exposing list crossed source
/// lines, `exposing` on a line of its own one level in (`inner` columns)
/// and the items sorted by name one per line two levels in (`inner2`).
pub open spec fn pretty_import_line(
    old_text: Seq<char>,
    new_text: Seq<char>,
    import: Import,
    inner: nat,
    inner2: nat,
) -> bool {
    if import_exposing_vertical(import) {
        let items = import_items(import);
        exists|ord: Seq<usize>|
            #[trigger] sorted_by_name(items, identity(items.len()), ord) && new_text == old_text + pretty_import_head(
                import,
            ) + nl(inner) + "exposing"@ + nl(inner2) + seq!['(', ' '] + item_lines_text(items, ord, inner2) + nl(
                inner2,
            ) + seq![')']
    } else {
        pretty_import_written(old_text, new_text, import)
    }
}

/// One group of imports of the same module written after `before` as
/// `line`: a single import as `pretty_import_line`, several merged as
/// `merged_import_written`.
pub open spec fn group_line(
    before: Seq<char>,
    line: Seq<char>,
    imports: Seq<Spanned<Import>>,
    group: Seq<usize>,
    inner: nat,
    inner2: nat,
) -> bool {
    if group.len() == 1 {
        pretty_import_line(before, line, imports[group[0] as int].value, inner, inner2)
    } else {
        merged_import_written(before, line, imports, group)
    }
}

/// `after` is `before` followed by a group's line and a line break.
pub open spec fn group_line_step(
    before: Seq<char>,
    after: Seq<char>,
    imports: Seq<Spanned<Import>>,
    group: Seq<usize>,
    inner: nat,
    inner2: nat,
) -> bool {
    exists|line: Seq<char>| #[trigger] group_line(before, line, imports, group, inner, inner2) && after == line + seq![
        '\n',
    ]
}

/// `texts` are the texts after `old_text` and after each group of imports
/// of `gs`, each group on a line of its own.
pub open spec fn group_lines(
    old_text: Seq<char>,
    texts: Seq<Seq<char>>,
    imports: Seq<Spanned<Import>>,
    gs: Seq<Seq<usize>>,
    inner: nat,
    inner2: nat,
) -> bool {
    &&& texts.len() == gs.len() + 1
    &&& texts[0] == old_text
    &&& forall|g: int|
        0 <= g < gs.len() ==> group_line_step(#[trigger] texts[g], texts[g + 1], imports, gs[g], inner, inner2)
}

/// The printed text of an infix declaration.
pub open spec fn infix_text(infix: InfixDef, pretty: bool) -> Seq<char> {
    let dir = match infix.direction.value {
        InfixDirection::Left => if pretty {
            "left  "@
        } else {
            "left "@
        },
        InfixDirection::Right => "right "@,
        InfixDirection::Non => if pretty {
            "non   "@
        } else {
            "non "@
        },
    };
    "infix "@ + dir + super::literals::int_text(infix.precedence.value as int) + " ("@ + infix.operator.value@
        + ") = "@ + infix.function.value@
}

/// A doc comment and the line break after it, if there is one.
pub open spec fn doc_line(doc: Option<Spanned<String>>, pretty: bool) -> Seq<char> {
    match doc {
        Some(d) => doc_comment_text(d.value@, pretty) + seq!['\n'],
        None => Seq::empty(),
    }
}

/// A signature on a line of its own, if there is one; `None` when it is
/// laid out over several lines.
pub open spec fn signature_part(sig: Option<Spanned<Signature>>, pretty: bool) -> Option<Seq<char>> {
    match sig {
        Some(s) => if pretty && content_multi(s.value.type_annotation) {
            None
        } else {
            Some(signature_line(s.value, pretty) + seq!['\n'])
        },
        None => Some(Seq::empty()),
    }
}

/// A function declaration when its signature (if any) and its body fit on
/// one line each: the doc comment, the signature and the definition, each
/// on its own line, the body at `cols` columns.
pub open spec fn simple_function_text(func: Function, pretty: bool, cols: nat) -> Option<Seq<char>> {
    match (signature_part(func.signature, pretty), simple_function_impl_text(func.declaration.value, pretty, cols)) {
        (Some(a), Some(b)) => Some(doc_line(func.documentation, pretty) + a + b),
        _ => None,
    }
}

/// The type variables of a type declaration, each after a space.
pub open spec fn generics_text(generics: Seq<Spanned<String>>) -> Seq<char>
    decreases generics.len(),
{
    if generics.len() == 0 {
        Seq::empty()
    } else {
        generics_text(generics.drop_last()) + seq![' '] + generics.last().value@
    }
}

/// `type alias Name a =`.
pub open spec fn alias_head(alias: TypeAlias) -> Seq<char> {
    "type alias "@ + alias.name.value@ + generics_text(alias.generics@) + seq![' ', '=']
}

/// A type alias whose type stays on one line: `type alias Name a =` and
/// the type on a new line at `cols` columns.
pub open spec fn simple_alias_text(alias: TypeAlias, pretty: bool, cols: nat) -> Option<Seq<char>> {
    if pretty && (content_multi(alias.type_annotation) || expands_record(alias.type_annotation.value)) {
        None
    } else {
        Some(doc_line(alias.documentation, pretty) + alias_head(alias) + seq!['\n'] + spaces(cols) + type_text(
            alias.type_annotation.value,
            pretty,
        ))
    }
}

/// The arguments of a constructor on its line, each after a space.
pub open spec fn ctor_args_text(args: Seq<Spanned<TypeAnnotation>>, pretty: bool) -> Seq<char>
    decreases args.len(),
{
    if args.len() == 0 {
        Seq::empty()
    } else {
        ctor_args_text(args.drop_last(), pretty) + seq![' '] + type_atomic_text(args.last().value, pretty)
    }
}

/// In elm-format layout, some argument of the constructor prints over
/// several lines.
pub open spec fn ctor_goes_vertical(ctor: ValueConstructor, pretty: bool) -> bool {
    pretty && exists|k: int| 0 <= k < ctor.args@.len() && ctor_arg_multi(#[trigger] ctor.args@[k])
}

/// A constructor with no comments around it that stays on one line.
pub open spec fn ctor_line_simple(ctor: Spanned<ValueConstructor>, first: bool, pretty: bool) -> bool {
    ctor.comments@.len() == 0 && (first || ctor.value.pre_pipe_comments@.len() == 0) && !ctor_goes_vertical(
        ctor.value,
        pretty,
    )
}

/// A constructor on a new line at `cols` columns after `= ` (the first) or
/// `| `.
pub open spec fn ctor_line(ctor: ValueConstructor, first: bool, pretty: bool, cols: nat) -> Seq<char> {
    seq!['\n'] + spaces(cols) + (if first {
        seq!['=', ' ']
    } else {
        seq!['|', ' ']
    }) + ctor.name.value@ + ctor_args_text(ctor.args@, pretty)
}

/// The constructors of a custom type, each on a new line at `cols` columns
/// after `= ` (the first) or `| `, when none has comments around it and
/// each stays on one line.
pub open spec fn simple_ctors_text(ctors: Seq<Spanned<ValueConstructor>>, pretty: bool, cols: nat) -> Option<
    Seq<char>,
>
    decreases ctors.len(),
{
    if ctors.len() == 0 {
        Some(Seq::empty())
    } else {
        let last = ctors.last();
        if !ctor_line_simple(last, ctors.len() == 1, pretty) {
            None
        } else {
            match simple_ctors_text(ctors.drop_last(), pretty, cols) {
                Some(a) => Some(a + ctor_line(last.value, ctors.len() == 1, pretty, cols)),
                None => None,
            }
        }
    }
}

proof fn lemma_simple_ctors_prefix(ctors: Seq<Spanned<ValueConstructor>>, pretty: bool, cols: nat, i: int)
    requires
        simple_ctors_text(ctors, pretty, cols) is Some,
        0 <= i <= ctors.len(),
    ensures
        simple_ctors_text(ctors.take(i), pretty, cols) is Some,
    decreases ctors.len(),
{
    if i == ctors.len() {
        assert(ctors.take(i) =~= ctors);
    } else {
        lemma_simple_ctors_prefix(ctors.drop_last(), pretty, cols, i);
        assert(ctors.drop_last().take(i) =~= ctors.take(i));
    }
}

proof fn lemma_simple_ctors_step(ctors: Seq<Spanned<ValueConstructor>>, pretty: bool, cols: nat, i: int)
    requires
        simple_ctors_text(ctors, pretty, cols) is Some,
        0 <= i < ctors.len(),
    ensures
        simple_ctors_text(ctors.take(i), pretty, cols) is Some,
        ctor_line_simple(ctors[i], i == 0, pretty),
        simple_ctors_text(ctors.take(i + 1), pretty, cols) == Some(
            simple_ctors_text(ctors.take(i), pretty, cols)->0 + ctor_line(ctors[i].value, i == 0, pretty, cols),
        ),
{
    lemma_simple_ctors_prefix(ctors, pretty, cols, i + 1);
    let t = ctors.take(i + 1);
    assert(t.drop_last() =~= ctors.take(i));
    assert(t.last() == ctors[i]);
}

/// `type Name a`.
pub open spec fn custom_type_head(ct: CustomType) -> Seq<char> {
    "type "@ + ct.name.value@ + generics_text(ct.generics@)
}

/// A custom type whose constructors stay on one line each.
pub open spec fn simple_custom_type_text(ct: CustomType, pretty: bool, cols: nat) -> Option<Seq<char>> {
    match simple_ctors_text(ct.constructors@, pretty, cols) {
        Some(c) => Some(doc_line(ct.documentation, pretty) + custom_type_head(ct) + c),
        None => None,
    }
}

/// The text of a declaration whose parts each fit on one line, the parts
/// one level in at `cols` columns; `None` for a declaration with a part
/// laid out over several lines or with comments inside.
#[verifier::opaque]
pub open spec fn declaration_text(decl: Declaration, pretty: bool, cols: nat) -> Option<Seq<char>> {
    match decl {
        Declaration::FunctionDeclaration(func) => simple_function_text(func, pretty, cols),
        Declaration::AliasDeclaration(alias) => simple_alias_text(alias, pretty, cols),
        Declaration::CustomTypeDeclaration(ct) => simple_custom_type_text(ct, pretty, cols),
        Declaration::PortDeclaration(sig) => if pretty && content_multi(sig.type_annotation) {
            None
        } else {
            Some("port "@ + signature_line(sig, pretty))
        },
        Declaration::InfixDeclaration(infix) => Some(infix_text(infix, pretty)),
        Declaration::Destructuring { pattern, body } => if body.comments@.len() > 0 {
            None
        } else {
            match simple_text(body.value, pretty) {
                Some(t) => Some(pattern_text(pattern.value, pretty) + seq![' ', '=', '\n'] + spaces(cols) + t),
                None => None,
            }
        },
    }
}

/// Whether two module names are the same.
fn same_module(a: &Vec<String>, b: &Vec<String>) -> (r: bool)
    ensures
        r == (a@.map_values(|s: String| s@) == b@.map_values(|s: String| s@)),
{
    let ka = name_key(a);
    let kb = name_key(b);
    same_name(&ka, &kb)
}

impl Printer {
    /// Write a module header: `module M exposing (...)`, `port module`, or
    /// `effect module M where { ... } exposing (...)`.
    #[verifier::spinoff_prover]
    pub(super) fn write_module_header(&mut self, header: &ModuleHeader)
        requires
            old(self).wf(),
        ensures
            old(self).extended(&*final(self)),
            (old(self).text() + header_prefix(*header)).is_prefix_of(final(self).text()),
            exposing_written(
                old(self).text() + header_lead(*header),
                final(self).text(),
                header_exposing(*header),
                true,
                old(self).pretty(),
                groups_view(old(self).doc_groups@),
                old(self).inner_columns(),
            ),
    {
        self.write_header_lead(header);
        let ghost lt = self.text();
        proof {
            old(self).same_state_keeps_layout(&*self);
            old(self).same_state_keeps_docs(&*self);
            reveal_strlit(" exposing ");
            reveal_strlit(" } exposing ");
            let p = old(self).text() + header_prefix(*header);
            assert(lt.len() > 0 && lt.last() == ' ');
            assert(p =~= lt.drop_last().subrange(0, p.len() as int));
            assert(p.is_prefix_of(lt.drop_last()));
            assert(old(self).text().is_prefix_of(lt.drop_last())) by {
                assert(old(self).text() =~= lt.drop_last().subrange(0, old(self).text().len() as int));
            }
            assert(lt.drop_last().is_prefix_of(lt)) by {
                assert(lt.drop_last() =~= lt.subrange(0, lt.len() - 1));
            }
        }
        let exposing = match header {
            ModuleHeader::Normal { exposing, .. } => exposing,
            ModuleHeader::Port { exposing, .. } => exposing,
            ModuleHeader::Effect { exposing, .. } => exposing,
        };
        self.write_exposing(&exposing.value, true);
    }

    /// A module header up to its exposing list: `module M exposing `, `port
    /// module M exposing ` or `effect module M where { ... } exposing `.
    fn write_header_lead(&mut self, header: &ModuleHeader)
        ensures
            old(self).appended(&*final(self), header_lead(*header)),
    {
        let ghost start = self.text();
        match header {
            ModuleHeader::Normal { name, .. } => {
                self.write("module ");
                self.write_dotted(&name.value);
                self.write(" exposing ");
                proof {
                    reveal_strlit("module ");
                    reveal_strlit(" exposing ");
                    assert(self.text() =~= start + header_lead(*header));
                }
            },
            ModuleHeader::Port { name, .. } => {
                self.write("port module ");
                self.write_dotted(&name.value);
                self.write(" exposing ");
                proof {
                    reveal_strlit("port module ");
                    reveal_strlit(" exposing ");
                    assert(self.text() =~= start + header_lead(*header));
                }
            },
            ModuleHeader::Effect { name, command, subscription, .. } => {
                self.write("effect module ");
                self.write_dotted(&name.value);
                self.write(" where { ");
                self.write_effect_fields(command, subscription);
                self.write(" } exposing ");
                proof {
                    reveal_strlit("effect module ");
                    reveal_strlit(" where { ");
                    reveal_strlit(" } exposing ");
                    assert(self.text() =~= start + header_lead(*header));
                }
            },
        }
    }

    /// The fields of an effect module's `where` clause.
    fn write_effect_fields(&mut self, command: &Option<Spanned<Ident>>, subscription: &Option<Spanned<Ident>>)
        ensures
            old(self).appended(&*final(self), effect_fields_text(*command, *subscription)),
    {
        let mut first = true;
        match command {
            Some(cmd) => {
                self.write("command = ");
                self.write(cmd.value.as_str());
                first = false;
            },
            None => {},
        }
        match subscription {
            Some(sub) => {
                if !first {
                    self.write(", ");
                }
                self.write("subscription = ");
                self.write(sub.value.as_str());
            },
            None => {},
        }
        proof {
            reveal_strlit("command = ");
            reveal_strlit("subscription = ");
            reveal_strlit(", ");
            assert(self.text() =~= old(self).text() + effect_fields_text(*command, *subscription));
        }
    }

    /// Write an import: `import M as A exposing (...)`. In elm-format layout
    /// an alias equal to the module name is dropped, exposed items are
    /// sorted, and an exposing list that spanned source lines goes one item
    /// per line below the import.
    #[verifier::spinoff_prover]
    pub(super) fn write_import(&mut self, import: &Import)
        requires
            old(self).wf(),
        ensures
            old(self).extended(&*final(self)),
            !old(self).pretty() ==> final(self).text() == old(self).text() + compact_import_text(*import),
            old(self).pretty() && !import_exposing_vertical(*import) ==> pretty_import_written(
                old(self).text(),
                final(self).text(),
                *import,
            ),
            old(self).pretty() ==> pretty_import_line(
                old(self).text(),
                final(self).text(),
                *import,
                old(self).inner_columns(),
                old(self).inner2_columns(),
            ),
    {
        let pretty = self.is_pretty();
        self.write("import ");
        self.write_dotted(&import.module_name.value);
        match &import.alias {
            Some(alias) => {
                let is_redundant = pretty && same_module(&alias.value, &import.module_name.value);
                if !is_redundant {
                    self.write(" as ");
                    self.write_dotted(&alias.value);
                }
            },
            None => {},
        }
        let ghost named = self.text();
        proof {
            reveal_strlit("import ");
            reveal_strlit(" as ");
            if !pretty {
                assert(named =~= old(self).text() + compact_import_head(*import));
            } else {
                assert(named =~= old(self).text() + pretty_import_head(*import));
            }
        }
        match &import.exposing {
            Some(exposing) => {
                let source_multi = pretty && exposing.span.end.line > exposing.span.start.line
                    && exposing.span.start.line != 0;
                let mut done = false;
                if source_multi {
                    match &exposing.value {
                        Exposing::Explicit(items) => {
                            proof {
                                old(self).same_state_keeps_layout(&*self);
                            }
                            self.write_vertical_import_exposing(items);
                            done = true;
                            proof {
                                assert(import_items(*import) == items@);
                            }
                        },
                        _ => {},
                    }
                }
                if !done {
                    let ghost mid = self.text();
                    self.write(" exposing ");
                    proof {
                        reveal_strlit(" exposing ");
                        assert(self.text().drop_last() =~= mid + " exposing "@.drop_last());
                    }
                    if pretty {
                        let ghost lead = self.text();
                        self.write_import_exposing_sorted(&exposing.value);
                        proof {
                            assert(lead =~= named + " exposing "@);
                        }
                    } else {
                        let ghost lead = self.text();
                        self.write_exposing(&exposing.value, false);
                        proof {
                            assert(lead =~= named + " exposing "@);
                            assert(self.text() =~= old(self).text() + compact_import_text(*import));
                        }
                    }
                }
            },
            None => {
                assert(named =~= named + Seq::<char>::empty());
            },
        }
    }

    /// `( a` and then `, b` lines with the items sorted, and `)` on its own
    /// line.
    fn write_sorted_exposing_lines(&mut self, items: &Vec<Spanned<ExposedItem>>)
        ensures
            old(self).extended(&*final(self)),
            exists|ord: Seq<usize>|
                #[trigger] sorted_by_name(items@, identity(items@.len()), ord) && final(self).text() == old(self).text()
                    + seq!['(', ' '] + item_lines_text(items@, ord, old(self).indent_columns()) + nl(
                    old(self).indent_columns(),
                ) + seq![')'],
    {
        let ghost cols = self.indent_columns();
        let order = sorted_item_order(items);
        self.write_char('(');
        self.write_char(' ');
        let ghost start = self.text();
        let mut i: usize = 0;
        while i < order.len()
            invariant
                i <= order@.len(),
                forall|k: int| 0 <= k < order@.len() ==> order@[k] < items@.len(),
                old(self).extended(&*self),
                cols == old(self).indent_columns(),
                start == old(self).text() + seq!['(', ' '],
                self.text() == start + item_lines_text(items@, order@.take(i as int), cols),
            decreases order@.len() - i,
        {
            proof {
                old(self).same_state_keeps_layout(&*self);
            }
            let ghost before = self.text();
            if i > 0 {
                self.newline_indent();
                self.write(", ");
            }
            self.write_exposed_item(&items[order[i]].value);
            proof {
                reveal_strlit(", ");
                let t = order@.take(i + 1);
                assert(t.drop_last() =~= order@.take(i as int));
                assert(t.last() == order@[i as int]);
                if i == 0 {
                    assert(t.len() == 1 && t[0] == order@[0]);
                }
                assert(self.text() =~= start + item_lines_text(items@, t, cols));
            }
            i = i + 1;
        }
        proof {
            assert(order@.take(i as int) =~= order@);
            old(self).same_state_keeps_layout(&*self);
        }
        let ghost end = self.text();
        self.newline_indent();
        self.write_char(')');
        proof {
            assert(self.text() =~= old(self).text() + seq!['(', ' '] + item_lines_text(items@, order@, cols) + nl(cols)
                + seq![')']);
        }
    }

    /// `exposing` on a line of its own one level in, then the items sorted
    /// by name one per line two levels in.
    #[verifier::spinoff_prover]
    fn write_vertical_import_exposing(&mut self, items: &Vec<Spanned<ExposedItem>>)
        requires
            old(self).wf(),
        ensures
            old(self).extended(&*final(self)),
            exists|ord: Seq<usize>|
                #[trigger] sorted_by_name(items@, identity(items@.len()), ord) && final(self).text() == old(self).text()
                    + nl(old(self).inner_columns()) + "exposing"@ + nl(old(self).inner2_columns()) + seq!['(', ' ']
                    + item_lines_text(items@, ord, old(self).inner2_columns()) + nl(old(self).inner2_columns()) + seq![
                    ')',
                ],
    {
        let ghost inner = self.inner_columns();
        let ghost inner2 = self.inner2_columns();
        self.indent();
        self.newline_indent();
        self.write("exposing");
        self.indent();
        self.newline_indent();
        let ghost lines_start = self.text();
        self.write_sorted_exposing_lines(items);
        let ghost lines_end = self.text();
        self.dedent();
        self.dedent();
        proof {
            reveal_strlit("exposing");
            assert(lines_start =~= old(self).text() + nl(inner) + "exposing"@ + nl(inner2));
            let ord = choose|ord: Seq<usize>|
                #[trigger] sorted_by_name(items@, identity(items@.len()), ord) && lines_end == lines_start + seq![
                    '(',
                    ' ',
                ] + item_lines_text(items@, ord, inner2) + nl(inner2) + seq![')'];
            assert(self.text() =~= old(self).text() + nl(inner) + "exposing"@ + nl(inner2) + seq!['(', ' ']
                + item_lines_text(items@, ord, inner2) + nl(inner2) + seq![')']);
        }
    }

    /// An import's exposing list with its items sorted by name.
    fn write_import_exposing_sorted(&mut self, exposing: &Exposing)
        ensures
            old(self).extended(&*final(self)),
            sorted_exposing_written(old(self).text(), final(self).text(), *exposing),
    {
        match exposing {
            Exposing::All(_) => {
                self.write("(..)");
                proof {
                    reveal_strlit("(..)");
                    assert("(..)"@ =~= seq!['(', '.', '.', ')']);
                }
            },
            Exposing::Explicit(items) => {
                let order = sorted_item_order(items);
                self.write_char('(');
                self.write_item_list(items, &order);
                self.write_char(')');
                assert(self.text() =~= old(self).text() + (seq!['('] + item_list_text(items@, order@) + seq![')']));
                assert(sorted_by_name(items@, identity(items@.len()), order@));
            },
        }
    }

    /// Several imports of one module written as one: the first alias that
    /// differs from the module name, and `exposing (..)` if any of them
    /// exposes everything, else all their exposed items sorted by name with
    /// repeated names dropped.
    #[verifier::spinoff_prover]
    fn write_merged_imports(&mut self, imports: &Vec<Spanned<Import>>, group: &Vec<usize>)
        requires
            group@.len() > 0,
            forall|k: int| 0 <= k < group@.len() ==> group@[k] < imports@.len(),
        ensures
            old(self).extended(&*final(self)),
            merged_import_written(old(self).text(), final(self).text(), imports@, group@),
    {
        let first = &imports[group[0]].value;
        self.write("import ");
        self.write_dotted(&first.module_name.value);
        let mut alias_at: Option<usize> = None;
        let mut k: usize = 0;
        assert(group@.skip(0) =~= group@);
        while k < group.len()
            invariant_except_break
                alias_at is None,
                first_new_alias(imports@, group@) == first_new_alias(imports@, group@.skip(k as int)),
            invariant
                k <= group@.len(),
                forall|q: int| 0 <= q < group@.len() ==> group@[q] < imports@.len(),
            ensures
                alias_at is None ==> k >= group@.len(),
                alias_at is None ==> first_new_alias(imports@, group@) == first_new_alias(imports@, group@.skip(k as int)),
                alias_at matches Some(a) ==> a < imports@.len() && imports@[a as int].value.alias is Some,
                alias_at matches Some(a) ==> first_new_alias(imports@, group@) == Some(imports@[a as int].value.alias->0.value@),
            decreases group@.len() - k,
        {
            let imp = &imports[group[k]].value;
            proof {
                assert(group@.skip(k as int)[0] == group@[k as int]);
                assert(group@.skip(k as int).skip(1) =~= group@.skip(k + 1));
            }
            match &imp.alias {
                Some(a) => {
                    if !same_module(&a.value, &imp.module_name.value) {
                        proof {
                            let gs = group@.skip(k as int);
                            assert(gs.len() > 0);
                            assert(gs[0] == group@[k as int]);
                            assert(first_new_alias(imports@, gs) == Some(a.value@));
                            assert(imports@[group@[k as int] as int].value == *imp);
                            assert(imports@[group@[k as int] as int].value.alias->0.value@ == a.value@);
                            assert(first_new_alias(imports@, group@) == Some(a.value@));
                        }
                        alias_at = Some(group[k]);
                        break;
                    }
                },
                None => {},
            }
            k = k + 1;
        }
        proof {
            if alias_at is None {
                assert(group@.skip(k as int).len() == 0);
                assert(first_new_alias(imports@, group@.skip(k as int)) is None);
            }
        }
        match alias_at {
            Some(a) => match &imports[a].value.alias {
                Some(alias) => {
                    self.write(" as ");
                    self.write_dotted(&alias.value);
                },
                None => {},
            },
            None => {},
        }
        let mut has_expose_all = false;
        let mut k2: usize = 0;
        while k2 < group.len()
            invariant
                k2 <= group@.len(),
                forall|q: int| 0 <= q < group@.len() ==> group@[q] < imports@.len(),
                has_expose_all == exists|q: int|
                    0 <= q < k2 && exposes_all(#[trigger] imports@[group@[q] as int].value),
            decreases group@.len() - k2,
        {
            match &imports[group[k2]].value.exposing {
                Some(e) => match &e.value {
                    Exposing::All(_) => {
                        has_expose_all = true;
                    },
                    _ => {},
                },
                None => {},
            }
            k2 = k2 + 1;
        }
        let ghost head = self.text();
        proof {
            reveal_strlit("import ");
            reveal_strlit(" as ");
            assert(head =~= old(self).text() + "import "@ + dotted(imports@[group@[0] as int].value.module_name.value@)
                + match first_new_alias(imports@, group@) {
                Some(a) => " as "@ + dotted(a),
                None => Seq::empty(),
            });
        }
        if has_expose_all {
            self.write(" exposing (..)");
        } else {
            self.write_merged_exposing(imports, group);
        }
    }

    /// ` exposing (...)` with the exposed items of the imports, sorted by
    /// name, each name once; nothing when there are none.
    #[verifier::spinoff_prover]
    fn write_merged_exposing(&mut self, imports: &Vec<Spanned<Import>>, group: &Vec<usize>)
        requires
            forall|k: int| 0 <= k < group@.len() ==> group@[k] < imports@.len(),
        ensures
            old(self).extended(&*final(self)),
            merged_exposing_written(old(self).text(), final(self).text(), imports@, group@),
    {
        let mut refs: Vec<(usize, usize)> = Vec::new();
        let mut keys: Vec<Vec<char>> = Vec::new();
        let mut k: usize = 0;
        while k < group.len()
            invariant
                k <= group@.len(),
                forall|q: int| 0 <= q < group@.len() ==> group@[q] < imports@.len(),
                refs@.len() == keys@.len(),
                refs@ == group_refs(imports@, group@.take(k as int)),
                forall|q: int| 0 <= q < refs@.len() ==> #[trigger] exposed_at(imports@, refs@[q]) is Some,
                forall|q: int| 0 <= q < keys@.len() ==> (#[trigger] keys@[q])@ == ref_names(imports@, refs@)[q],
            decreases group@.len() - k,
        {
            let gi = group[k];
            let ghost r0 = refs@;
            proof {
                assert(group@.take(k + 1).drop_last() =~= group@.take(k as int));
                assert(group@.take(k + 1).last() == gi);
            }
            match &imports[gi].value.exposing {
                Some(e) => match &e.value {
                    Exposing::Explicit(items) => {
                        let mut j: usize = 0;
                        while j < items.len()
                            invariant
                                j <= items@.len(),
                                gi < imports@.len(),
                                imports@[gi as int].value.exposing matches Some(ex) && ex.value matches Exposing::Explicit(its) && its == items,
                                refs@.len() == keys@.len(),
                                refs@ == r0 + import_refs(imports@, gi).take(j as int),
                                import_refs(imports@, gi).len() == items@.len(),
                                forall|q: int| 0 <= q < refs@.len() ==> #[trigger] exposed_at(imports@, refs@[q]) is Some,
                                forall|q: int| 0 <= q < keys@.len() ==> (#[trigger] keys@[q])@ == ref_names(imports@, refs@)[q],
                            decreases items@.len() - j,
                        {
                            let ghost rv = refs@;
                            refs.push((gi, j));
                            keys.push(exposed_item_sort_key(&items[j].value));
                            proof {
                                assert(refs@ =~= r0 + import_refs(imports@, gi).take(j + 1));
                                assert forall|q: int| 0 <= q < keys@.len() implies (#[trigger] keys@[q])@ == ref_names(imports@, refs@)[q] by {
                                    if q < rv.len() {
                                        assert(refs@[q] == rv[q]);
                                    }
                                }
                            }
                            j = j + 1;
                        }
                        proof {
                            assert(import_refs(imports@, gi).take(j as int) =~= import_refs(imports@, gi));
                        }
                    },
                    _ => {
                        assert(import_refs(imports@, gi) =~= Seq::<(usize, usize)>::empty());
                        assert(refs@ =~= r0 + import_refs(imports@, gi));
                    },
                },
                None => {
                    assert(import_refs(imports@, gi) =~= Seq::<(usize, usize)>::empty());
                    assert(refs@ =~= r0 + import_refs(imports@, gi));
                },
            }
            k = k + 1;
        }
        proof {
            assert(group@.take(k as int) =~= group@);
        }
        if refs.len() > 0 {
            let ord = sort_indices(&keys);
            self.write(" exposing (");
            let ghost start = self.text();
            let mut last: Option<usize> = None;
            let mut p: usize = 0;
            while p < ord.len()
                invariant
                    p <= ord@.len(),
                    is_stable_sort(keys@, ord@),
                    refs@.len() == keys@.len(),
                    refs@ == group_refs(imports@, group@),
                    forall|q: int| 0 <= q < refs@.len() ==> #[trigger] exposed_at(imports@, refs@[q]) is Some,
                    forall|q: int| 0 <= q < keys@.len() ==> (#[trigger] keys@[q])@ == ref_names(imports@, refs@)[q],
                    last matches Some(l) ==> l < keys@.len(),
                    p == 0 <==> last is None,
                    p > 0 ==> (last matches Some(l) && keys@[l as int]@ == keys@[ord@[p - 1] as int]@),
                    old(self).extended(&*self),
                    self.text() == start + merged_items_text(imports@, refs@, ord@.take(p as int)),
                decreases ord@.len() - p,
            {
                let cur = ord[p];
                let repeated = match last {
                    Some(l) => chars_eq(&keys[cur], &keys[l]),
                    None => false,
                };
                let ghost before = self.text();
                if !repeated {
                    if last.is_some() {
                        self.write(", ");
                    }
                    let (a, b) = refs[cur];
                    match exposed_item_at(imports, a, b) {
                        Some(item) => self.write_exposed_item(item),
                        None => {},
                    }
                    last = Some(cur);
                }
                proof {
                    reveal_strlit(", ");
                    let t = ord@.take(p + 1);
                    assert(t.drop_last() =~= ord@.take(p as int));
                    assert(t.last() == ord@[p as int]);
                    if p > 0 {
                        assert(t[p - 1] == ord@[p - 1]);
                    }
                    let names = ref_names(imports@, refs@);
                    assert(keys@[cur as int]@ == names[cur as int]);
                    if p > 0 {
                        assert(ord@[p - 1] < keys@.len());
                        assert(keys@[ord@[p - 1] as int]@ == names[ord@[p - 1] as int]);
                    }
                    assert(self.text() =~= start + merged_items_text(imports@, refs@, t));
                }
                p = p + 1;
            }
            self.write_char(')');
            proof {
                assert(ord@.take(p as int) =~= ord@);
                reveal_strlit(" exposing (");
                assert(self.text() =~= old(self).text() + " exposing ("@ + merged_items_text(imports@, refs@, ord@) + seq![')']);
                assert(is_stable_sort(keys@, ord@));
            }
        }
        assert(merged_exposing_written(old(self).text(), self.text(), imports@, group@));
    }
}

/// ` exposing (...)` with the items that the imports of a group expose by
/// name, stably sorted by name, each name once; nothing when there are
/// none.
pub open spec fn merged_exposing_written(
    old_text: Seq<char>,
    new_text: Seq<char>,
    imports: Seq<Spanned<Import>>,
    group: Seq<usize>,
) -> bool {
    let refs = group_refs(imports, group);
    &&& refs.len() == 0 ==> new_text == old_text
    &&& refs.len() > 0 ==> exists|keys: Seq<Vec<char>>, ord: Seq<usize>|
        keys.len() == refs.len() && (forall|q: int| 0 <= q < keys.len() ==> (#[trigger] keys[q])@ == ref_names(imports, refs)[q])
            && #[trigger] is_stable_sort(keys, ord) && new_text == old_text + " exposing ("@ + merged_items_text(
            imports,
            refs,
            ord,
        ) + seq![')']
}

/// The first alias in the group that differs from its module's name.
pub open spec fn first_new_alias(imports: Seq<Spanned<Import>>, group: Seq<usize>) -> Option<Seq<String>>
    decreases group.len(),
{
    if group.len() == 0 {
        None
    } else {
        let imp = imports[group[0] as int].value;
        match imp.alias {
            Some(a) => if a.value@.map_values(|s: String| s@) != imp.module_name.value@.map_values(|s: String| s@) {
                Some(a.value@)
            } else {
                first_new_alias(imports, group.skip(1))
            },
            None => first_new_alias(imports, group.skip(1)),
        }
    }
}

/// Some import of the group exposes everything.
pub open spec fn group_exposes_all(imports: Seq<Spanned<Import>>, group: Seq<usize>) -> bool {
    exists|q: int|
        0 <= q < group.len() && exposes_all(#[trigger] imports[group[q] as int].value)
}

/// An import that exposes everything.
pub open spec fn exposes_all(imp: Import) -> bool {
    imp.exposing matches Some(e) && e.value is All
}

/// Several imports of one module written as one.
pub open spec fn merged_import_written(
    old_text: Seq<char>,
    new_text: Seq<char>,
    imports: Seq<Spanned<Import>>,
    group: Seq<usize>,
) -> bool {
    let head = old_text + "import "@ + dotted(imports[group[0] as int].value.module_name.value@) + match first_new_alias(
        imports,
        group,
    ) {
        Some(a) => " as "@ + dotted(a),
        None => Seq::empty(),
    };
    if group_exposes_all(imports, group) {
        new_text == head + " exposing (..)"@
    } else {
        merged_exposing_written(head, new_text, imports, group)
    }
}

/// The places `(import, item)` of the items that import `gi` exposes by
/// name, in order.
pub open spec fn import_refs(imports: Seq<Spanned<Import>>, gi: usize) -> Seq<(usize, usize)> {
    match imports[gi as int].value.exposing {
        Some(e) => match e.value {
            Exposing::Explicit(items) => Seq::new(items@.len(), |j: int| (gi, j as usize)),
            _ => Seq::empty(),
        },
        None => Seq::empty(),
    }
}

/// The places of the items that the imports of a group expose by name, in
/// order.
pub open spec fn group_refs(imports: Seq<Spanned<Import>>, group: Seq<usize>) -> Seq<(usize, usize)>
    decreases group.len(),
{
    if group.len() == 0 {
        Seq::empty()
    } else {
        group_refs(imports, group.drop_last()) + import_refs(imports, group.last())
    }
}

/// The name of the item at each place.
pub open spec fn ref_names(imports: Seq<Spanned<Import>>, refs: Seq<(usize, usize)>) -> Seq<Seq<char>> {
    refs.map_values(|r: (usize, usize)| exposed_name(exposed_at(imports, r)->0))
}

/// The items at the places `refs`, in the order `ord`, separated by `, `;
/// an item whose name is that of the one before it in that order is left
/// out.
pub open spec fn merged_items_text(
    imports: Seq<Spanned<Import>>,
    refs: Seq<(usize, usize)>,
    ord: Seq<usize>,
) -> Seq<char>
    decreases ord.len(),
{
    if ord.len() == 0 {
        Seq::empty()
    } else {
        let p = ord.len() - 1;
        let names = ref_names(imports, refs);
        let prev = merged_items_text(imports, refs, ord.drop_last());
        if p > 0 && names[ord[p] as int] == names[ord[p - 1] as int] {
            prev
        } else {
            prev + (if p > 0 {
                seq![',', ' ']
            } else {
                Seq::empty()
            }) + exposed_text(exposed_at(imports, refs[ord[p] as int])->0)
        }
    }
}

/// The exposed item `b` of import `a`, if there is one.
pub open spec fn exposed_at(imports: Seq<Spanned<Import>>, r: (usize, usize)) -> Option<ExposedItem> {
    if r.0 < imports.len() {
        match imports[r.0 as int].value.exposing {
            Some(e) => match e.value {
                Exposing::Explicit(items) => if r.1 < items@.len() {
                    Some(items@[r.1 as int].value)
                } else {
                    None
                },
                _ => None,
            },
            None => None,
        }
    } else {
        None
    }
}

fn exposed_item_at(imports: &Vec<Spanned<Import>>, a: usize, b: usize) -> (r: Option<&ExposedItem>)
    ensures
        r matches Some(item) ==> exposed_at(imports@, (a, b)) == Some(*item),
        r is None <==> exposed_at(imports@, (a, b)) is None,
{
    if a >= imports.len() {
        return None;
    }
    match &imports[a].value.exposing {
        Some(e) => match &e.value {
            Exposing::Explicit(items) => {
                if b < items.len() {
                    Some(&items[b].value)
                } else {
                    None
                }
            },
            _ => None,
        },
        None => None,
    }
}

/// The positions of the items sorted by name (stably).
fn sorted_item_order(items: &Vec<Spanned<ExposedItem>>) -> (r: Vec<usize>)
    ensures
        forall|k: int| 0 <= k < r@.len() ==> r@[k] < items@.len(),
        sorted_by_name(items@, identity(items@.len()), r@),
{
    let all = all_indices(items.len());
    let (r, Ghost(ord)) = sorted_items(items, &all);
    proof {
        assert(all@ =~= identity(items@.len()));
        assert(r@ =~= ord);
    }
    r
}

impl Printer {
    /// Write a top-level declaration.
    #[verifier::spinoff_prover]
    pub fn write_declaration(&mut self, decl: &Declaration)
        requires
            old(self).wf(),
        ensures
            old(self).extended(&*final(self)),
            declaration_text(*decl, old(self).pretty(), old(self).inner_columns()) matches Some(t)
                ==> final(self).text() == old(self).text() + t,
            decl_shape(
                *decl,
                final(self).text().subrange(old(self).text().len() as int, final(self).text().len() as int),
                old(self).pretty(),
                old(self).inner_columns(),
            ),
    {
        let ghost pretty = self.pretty();
        proof {
            reveal(declaration_text);
        }
        match decl {
            Declaration::FunctionDeclaration(func) => {
                self.write_function(func);
                proof {
                    let d = self.text().subrange(old(self).text().len() as int, self.text().len() as int);
                    let (sig, b) = choose|sig: Seq<char>, b: Seq<char>|
                        #[trigger] func_shape(*func, pretty, old(self).inner_columns(), sig, b) == d;
                    assert(d.subrange(0, d.len() as int) =~= d);
                    assert(func_shape(*func, pretty, old(self).inner_columns(), sig, b) == d.subrange(0, d.len() as int));
                    assert(Seq::<char>::empty().is_prefix_of(d));
                }
            },
            Declaration::AliasDeclaration(alias) => self.write_type_alias(alias),
            Declaration::CustomTypeDeclaration(ct) => self.write_custom_type(ct),
            Declaration::PortDeclaration(sig) => {
                self.write("port ");
                let ghost mid = self.text();
                self.write_signature(sig);
                proof {
                    reveal_strlit("port ");
                    if !(pretty && content_multi(sig.type_annotation)) {
                        assert(self.text() =~= old(self).text() + ("port "@ + signature_line(*sig, pretty)));
                    }
                }
            },
            Declaration::InfixDeclaration(infix) => self.write_infix_decl(infix),
            Declaration::Destructuring { pattern, body } => {
                self.write_pattern(&pattern.value);
                self.write(" =");
                proof {
                    old(self).same_state_keeps_layout(&*self);
                }
                self.indent();
                self.newline_indent();
                let ghost mid = self.text();
                self.write_spanned_expr(body);
                self.dedent();
                proof {
                    reveal_strlit(" =");
                    if let Some(t) = declaration_text(*decl, pretty, old(self).inner_columns()) {
                        let b = simple_text(body.value, pretty)->0;
                        assert(self.text() =~= old(self).text() + t);
                    }
                }
            },
        }
    }

    /// A doc comment and a line break after it, if there is one.
    fn write_doc_line(&mut self, doc: &Option<Spanned<String>>)
        ensures
            old(self).appended(&*final(self), doc_line(*doc, old(self).pretty())),
    {
        match doc {
            Some(d) => {
                self.write_doc_comment_text(d.value.as_str());
                self.newline();
            },
            None => {},
        }
        assert(self.text() =~= old(self).text() + doc_line(*doc, old(self).pretty()));
    }

    /// A function: its doc comment, signature and definition, each on its
    /// own line.
    #[verifier::spinoff_prover]
    #[verifier::rlimit(100)]
    fn write_function(&mut self, func: &Function)
        requires
            old(self).wf(),
        ensures
            old(self).extended(&*final(self)),
            simple_function_text(*func, old(self).pretty(), old(self).inner_columns()) matches Some(t)
                ==> final(self).text() == old(self).text() + t,
            func_written(old(self).text(), final(self).text(), *func, old(self).pretty(), old(self).inner_columns()),
    {
        let ghost pretty = self.pretty();
        self.write_doc_line(&func.documentation);
        let ghost after_doc = self.text();
        match &func.signature {
            Some(sig) => {
                self.write_signature(&sig.value);
                self.newline();
            },
            None => {},
        }
        let ghost after_sig = self.text();
        proof {
            old(self).same_state_keeps_layout(&*self);
        }
        self.write_function_impl(&func.declaration.value);
        proof {
            if let Some(t) = simple_function_text(*func, pretty, old(self).inner_columns()) {
                let a = signature_part(func.signature, pretty)->0;
                let b = simple_function_impl_text(func.declaration.value, pretty, old(self).inner_columns())->0;
                assert(after_sig =~= after_doc + a);
                assert(self.text() =~= old(self).text() + t);
            }
            let sig = after_sig.subrange(after_doc.len() as int, after_sig.len() as int);
            assert(after_sig =~= after_doc + sig);
            let b = choose|b: Seq<char>|
                #[trigger] impl_shape(func.declaration.value, pretty, old(self).inner_columns(), b)
                    == self.text().subrange(after_sig.len() as int, self.text().len() as int);
            assert(self.text() =~= after_sig + impl_shape(func.declaration.value, pretty, old(self).inner_columns(), b));
            assert(func_shape(*func, pretty, old(self).inner_columns(), sig, b) =~= self.text().subrange(
                old(self).text().len() as int,
                self.text().len() as int,
            ));
        }
    }

    /// `type alias Name a =` and the type one level in; in elm-format
    /// layout a type whose content crossed source lines is laid out over
    /// several lines.
    #[verifier::spinoff_prover]
    fn write_type_alias(&mut self, alias: &TypeAlias)
        requires
            old(self).wf(),
        ensures
            old(self).extended(&*final(self)),
            simple_alias_text(*alias, old(self).pretty(), old(self).inner_columns()) matches Some(t)
                ==> final(self).text() == old(self).text() + t,
    {
        let ghost pretty = self.pretty();
        self.write_doc_line(&alias.documentation);
        let ghost d = doc_line(alias.documentation, pretty);
        self.write_alias_head(alias);
        proof {
            old(self).same_state_keeps_layout(&*self);
        }
        let ghost cols = old(self).inner_columns();
        self.indent();
        self.newline_indent();
        let ghost mid = self.text();
        self.write_alias_type(&alias.type_annotation);
        self.dedent();
        proof {
            if let Some(t) = simple_alias_text(*alias, pretty, cols) {
                let ty = type_text(alias.type_annotation.value, pretty);
                let head = alias_head(*alias);
                assert(mid == old(self).text() + d + head + (seq!['\n'] + spaces(cols)));
                assert(self.text() == mid + ty);
                assert(self.text() =~= old(self).text() + t);
            }
        }
    }

    /// `type alias Name a =`.
    fn write_alias_head(&mut self, alias: &TypeAlias)
        ensures
            old(self).appended(&*final(self), alias_head(*alias)),
    {
        self.write("type alias ");
        self.write(alias.name.value.as_str());
        self.write_generics(&alias.generics);
        self.write(" =");
        proof {
            reveal_strlit("type alias ");
            reveal_strlit(" =");
            assert(self.text() =~= old(self).text() + alias_head(*alias));
        }
    }

    /// The type of a type alias: on one line, or in elm-format layout over
    /// several lines when its content crossed source lines or it is a
    /// record to expand.
    fn write_alias_type(&mut self, ta: &Spanned<TypeAnnotation>)
        requires
            old(self).wf(),
        ensures
            old(self).extended(&*final(self)),
            !(old(self).pretty() && (content_multi(*ta) || expands_record(ta.value))) ==> final(self).text()
                == old(self).text() + type_text(ta.value, old(self).pretty()),
    {
        if self.is_pretty() {
            if type_ann_spans_multi_lines(ta) {
                self.write_type_multiline(ta);
            } else {
                self.write_type_pretty_toplevel(&ta.value);
            }
        } else {
            self.write_type(&ta.value);
        }
    }

    /// The type variables of a type declaration, each after a space.
    fn write_generics(&mut self, generics: &Vec<Spanned<String>>)
        ensures
            old(self).appended(&*final(self), generics_text(generics@)),
    {
        let mut i: usize = 0;
        while i < generics.len()
            invariant
                i <= generics@.len(),
                old(self).appended(&*self, generics_text(generics@.take(i as int))),
            decreases generics@.len() - i,
        {
            self.write_char(' ');
            self.write(generics[i].value.as_str());
            proof {
                let t = generics@.take(i + 1);
                assert(t.drop_last() =~= generics@.take(i as int));
                assert(t.last() == generics@[i as int]);
                assert(self.text() =~= old(self).text() + generics_text(t));
            }
            i = i + 1;
        }
        assert(generics@.take(i as int) =~= generics@);
    }

    /// `type Name a` and its constructors one level in, `= A` then `| B`
    /// lines, with their comments.
    #[verifier::spinoff_prover]
    fn write_custom_type(&mut self, ct: &CustomType)
        requires
            old(self).wf(),
        ensures
            old(self).extended(&*final(self)),
            simple_custom_type_text(*ct, old(self).pretty(), old(self).inner_columns()) matches Some(t)
                ==> final(self).text() == old(self).text() + t,
    {
        let ghost pretty = self.pretty();
        self.write_doc_line(&ct.documentation);
        self.write_custom_type_head(ct);
        let ghost head = self.text();
        proof {
            old(self).same_state_keeps_layout(&*self);
        }
        self.indent();
        self.write_constructors(ct);
        self.dedent();
        proof {
            if let Some(t) = simple_custom_type_text(*ct, pretty, old(self).inner_columns()) {
                let c = simple_ctors_text(ct.constructors@, pretty, old(self).inner_columns())->0;
                assert(head == old(self).text() + doc_line(ct.documentation, pretty) + custom_type_head(*ct));
                assert(self.text() =~= old(self).text() + t);
            }
        }
    }

    /// `type Name a`.
    fn write_custom_type_head(&mut self, ct: &CustomType)
        ensures
            old(self).appended(&*final(self), custom_type_head(*ct)),
    {
        self.write("type ");
        self.write(ct.name.value.as_str());
        self.write_generics(&ct.generics);
        proof {
            reveal_strlit("type ");
            assert(self.text() =~= old(self).text() + custom_type_head(*ct));
        }
    }

    /// The comments in front of a constructor name: each followed by a new
    /// line at the name's column.
    fn write_comments_before_name(&mut self, comments: &Vec<Spanned<Comment>>)
        ensures
            old(self).appended(
                &*final(self),
                comment_run(
                    old(self).text(),
                    comments@,
                    old(self).pretty(),
                    Seq::empty(),
                    seq!['\n'] + spaces(old(self).indent_columns()) + seq![' ', ' '],
                ),
            ),
            comments@.len() == 0 ==> final(self).text() == old(self).text(),
    {
        self.write_comment_lines_indented(comments);
    }

    #[verifier::spinoff_prover]
    fn write_constructors(&mut self, ct: &CustomType)
        requires
            old(self).wf(),
        ensures
            old(self).extended(&*final(self)),
            simple_ctors_text(ct.constructors@, old(self).pretty(), old(self).indent_columns()) matches Some(t)
                ==> final(self).text() == old(self).text() + t,
    {
        let ghost pretty = self.pretty();
        let ghost cols = self.indent_columns();
        let ghost ctors = ct.constructors@;
        let ghost whole = simple_ctors_text(ctors, pretty, cols);
        let mut i: usize = 0;
        while i < ct.constructors.len()
            invariant
                i <= ct.constructors@.len(),
                old(self).wf(),
                old(self).extended(&*self),
                pretty == old(self).pretty(),
                cols == old(self).indent_columns(),
                ctors == ct.constructors@,
                whole == simple_ctors_text(ctors, pretty, cols),
                whole is Some ==> (simple_ctors_text(ctors.take(i as int), pretty, cols) matches Some(t)
                    && self.text() == old(self).text() + t),
            decreases ct.constructors@.len() - i,
        {
            proof {
                old(self).same_state_keeps_layout(&*self);
                if whole is Some {
                    lemma_simple_ctors_step(ctors, pretty, cols, i as int);
                }
            }
            self.write_constructor_line(&ct.constructors[i], i == 0);
            i = i + 1;
        }
        assert(ctors.take(i as int) =~= ctors);
    }

    /// A constructor on a new line after `= ` (the first) or `| `, with its
    /// comments.
    #[verifier::spinoff_prover]
    fn write_constructor_line(&mut self, ctor: &Spanned<ValueConstructor>, first: bool)
        requires
            old(self).wf(),
        ensures
            old(self).extended(&*final(self)),
            ctor_line_simple(*ctor, first, old(self).pretty()) ==> final(self).text() == old(self).text()
                + ctor_line(ctor.value, first, old(self).pretty(), old(self).indent_columns()),
    {
        let ghost pretty = self.pretty();
        let ghost cols = self.indent_columns();
        let ghost before = self.text();
        if first {
            self.newline_indent();
            self.write("= ");
            self.write_comments_before_name(&ctor.comments);
        } else {
            let mut k: usize = 0;
            while k < ctor.comments.len()
                invariant
                    k <= ctor.comments@.len(),
                    old(self).extended(&*self),
                    ctor.comments@.len() == 0 ==> self.text() == before,
                decreases ctor.comments@.len() - k,
            {
                self.newline();
                self.write_indent();
                self.write("  ");
                self.write_comment(&ctor.comments[k].value);
                k = k + 1;
            }
            proof {
                old(self).same_state_keeps_layout(&*self);
            }
            self.newline_indent();
            self.write("| ");
            self.write_comments_before_name(&ctor.value.pre_pipe_comments);
        }
        let ghost named = self.text();
        self.write_value_constructor(&ctor.value);
        proof {
            reveal_strlit("= ");
            reveal_strlit("| ");
            if ctor_line_simple(*ctor, first, pretty) {
                let mark = if first {
                    seq!['=', ' ']
                } else {
                    seq!['|', ' ']
                };
                assert(named =~= before + seq!['\n'] + spaces(cols) + mark);
                assert(self.text() =~= old(self).text() + ctor_line(ctor.value, first, pretty, cols));
            }
        }
    }

    /// A constructor and its arguments; in elm-format layout, when an
    /// argument prints over several lines, one argument per line.
    fn write_value_constructor(&mut self, ctor: &ValueConstructor)
        requires
            old(self).wf(),
        ensures
            old(self).extended(&*final(self)),
            !ctor_goes_vertical(*ctor, old(self).pretty()) ==> final(self).text() == old(self).text()
                + ctor.name.value@ + ctor_args_text(ctor.args@, old(self).pretty()),
    {
        let ghost pretty = self.pretty();
        self.write(ctor.name.value.as_str());
        let ghost named = self.text();
        let mut any_multiline = false;
        if self.is_pretty() {
            let mut k: usize = 0;
            while k < ctor.args.len()
                invariant
                    k <= ctor.args@.len(),
                    any_multiline == exists|q: int| 0 <= q < k && ctor_arg_multi(#[trigger] ctor.args@[q]),
                decreases ctor.args@.len() - k,
            {
                if ctor_arg_prints_multiline(&ctor.args[k]) {
                    any_multiline = true;
                }
                k = k + 1;
            }
        }
        if any_multiline {
            self.indent();
            self.write_ctor_args_multiline(ctor);
            self.dedent();
        } else {
            let mut i: usize = 0;
            while i < ctor.args.len()
                invariant
                    i <= ctor.args@.len(),
                    old(self).extended(&*self),
                    pretty == old(self).pretty(),
                    self.text() == named + ctor_args_text(ctor.args@.take(i as int), pretty),
                decreases ctor.args@.len() - i,
            {
                self.write_char(' ');
                self.write_type_atomic(&ctor.args[i].value);
                proof {
                    let t = ctor.args@.take(i + 1);
                    assert(t.drop_last() =~= ctor.args@.take(i as int));
                    assert(t.last() == ctor.args@[i as int]);
                    assert(self.text() =~= named + ctor_args_text(t, pretty));
                }
                i = i + 1;
            }
            assert(ctor.args@.take(i as int) =~= ctor.args@);
            assert(self.text() =~= old(self).text() + ctor.name.value@ + ctor_args_text(ctor.args@, pretty));
        }
    }

    #[verifier::spinoff_prover]
    fn write_ctor_args_multiline(&mut self, ctor: &ValueConstructor)
        requires
            old(self).wf(),
        ensures
            old(self).extended(&*final(self)),
            prefixed_lines(
                ctor.args@.map_values(|a: Spanned<TypeAnnotation>| ctor_arg_line(a, old(self).pretty())),
                old(self).indent_columns(),
                Seq::empty(),
                Seq::empty(),
            ) matches Some(t) ==> final(self).text() == old(self).text() + t,
    {
        let ghost pretty = self.pretty();
        let ghost cols = self.indent_columns();
        let ghost parts = ctor.args@.map_values(|a: Spanned<TypeAnnotation>| ctor_arg_line(a, pretty));
        let ghost whole = prefixed_lines(parts, cols, Seq::empty(), Seq::empty());
        proof {
            reveal(prefixed_lines);
            assert(parts.take(0) =~= Seq::<Option<Seq<char>>>::empty());
        }
        let mut i: usize = 0;
        while i < ctor.args.len()
            invariant
                i <= ctor.args@.len(),
                parts.len() == ctor.args@.len(),
                old(self).wf(),
                old(self).extended(&*self),
                pretty == old(self).pretty(),
                cols == old(self).indent_columns(),
                parts == ctor.args@.map_values(|a: Spanned<TypeAnnotation>| ctor_arg_line(a, pretty)),
                whole == prefixed_lines(parts, cols, Seq::empty(), Seq::empty()),
                whole is Some ==> (prefixed_lines(parts.take(i as int), cols, Seq::empty(), Seq::empty()) matches Some(t)
                    && self.text() == old(self).text() + t),
            decreases ctor.args@.len() - i,
        {
            proof {
                old(self).same_state_keeps_layout(&*self);
                if whole is Some {
                    lemma_prefixed_lines_step(parts, cols, Seq::empty(), Seq::empty(), i as int);
                }
            }
            let ghost before = self.text();
            self.newline_indent();
            let ghost a = self.text();
            self.write_ctor_arg_multiline(&ctor.args[i]);
            proof {
                if whole is Some {
                    assert(a =~= before + nl(cols) + Seq::<char>::empty());
                    assert(self.text() =~= old(self).text() + prefixed_lines(
                        parts.take(i + 1),
                        cols,
                        Seq::empty(),
                        Seq::empty(),
                    )->0);
                }
            }
            i = i + 1;
        }
        proof {
            assert(parts.take(i as int) =~= parts);
        }
    }

    /// `infix left 6 (+) = add`; in elm-format layout the direction is
    /// padded to six columns.
    fn write_infix_decl(&mut self, infix: &InfixDef)
        ensures
            old(self).appended(&*final(self), infix_text(*infix, old(self).pretty())),
    {
        let ghost start = self.text();
        let pretty = self.is_pretty();
        self.write("infix ");
        if pretty {
            match infix.direction.value {
                InfixDirection::Left => self.write("left  "),
                InfixDirection::Right => self.write("right "),
                InfixDirection::Non => self.write("non   "),
            }
        } else {
            match infix.direction.value {
                InfixDirection::Left => self.write("left"),
                InfixDirection::Right => self.write("right"),
                InfixDirection::Non => self.write("non"),
            }
            self.write_char(' ');
        }
        self.write_int(infix.precedence.value as i64);
        self.write(" (");
        self.write(infix.operator.value.as_str());
        self.write(") = ");
        self.write(infix.function.value.as_str());
        proof {
            reveal_strlit("infix ");
            reveal_strlit("left  ");
            reveal_strlit("right ");
            reveal_strlit("non   ");
            reveal_strlit("left");
            reveal_strlit("right");
            reveal_strlit("non");
            reveal_strlit("left ");
            reveal_strlit("non ");
            reveal_strlit(" (");
            reveal_strlit(") = ");
            assert(self.text() =~= start + infix_text(*infix, pretty));
        }
    }
}

impl Printer {
    /// Write a whole module: header, documentation, imports (in elm-format
    /// layout sorted and merged by module name), declarations with the
    /// comments between them, and a final newline.
    #[verifier::spinoff_prover]
    #[verifier::spinoff_prover]
    #[verifier::rlimit(100)]
    pub fn write_module(&mut self, module: &ElmModule)
        requires
            old(self).wf(),
            module.imports@.len() + module.declarations@.len() < usize::MAX,
        ensures
            (old(self).text() + header_prefix(module.header.value)).is_prefix_of(final(self).text()),
            final(self).text().last() == '\n',
            final(self).same_layout(&*old(self)),
            module.comments@.len() == 0 && !old(self).pretty() ==> (compact_module_text(
                *module,
                old(self).inner_columns(),
            ) matches Some(t) ==> final(self).text() == old(self).text() + t),
            module.comments@.len() == 0 && old(self).pretty() && plain_decls_text(
                module.declarations@,
                true,
                old(self).inner_columns(),
            ) is Some ==> pretty_module_written(
                old(self).text(),
                final(self).text(),
                *module,
                module_docs(*module, old(self).doc_names()),
                old(self).inner_columns(),
                old(self).inner2_columns(),
            ),
            !old(self).pretty() ==> exists|order: Seq<usize>|
                #[trigger] is_stable_sort(comment_offsets(*module), order) && (commented_module_text(
                    *module,
                    module_slots(*module, false, order),
                    old(self).inner_columns(),
                    old(self).text(),
                ) matches Some(t) ==> final(self).text() == old(self).text() + t),
            !old(self).pretty() ==> compact_module_written(
                old(self).text(),
                final(self).text(),
                *module,
                old(self).inner_columns(),
            ),
    {
        let pretty = self.is_pretty();
        if pretty {
            match &module.module_documentation {
                Some(doc) => {
                    self.set_doc_groups(parse_docs_groups(doc.value.as_str()));
                },
                None => {},
            }
        }
        let ghost start = *self;
        proof {
            start.doc_names_of_groups();
            if pretty {
                assert(start.doc_names() == module_docs(*module, old(self).doc_names()));
            }
        }
        let mut slots = CommentSlots::build(module, pretty);
        if pretty {
            slots.hoist_import_trailing_comments(module);
        }
        let num_imports = slots.num_imports;
        let total_anchors = slots.trailing_slot();
        self.write_module_header(&module.header.value);
        let ghost after_header = *self;
        let ghost plain = module.comments@.len() == 0 && !pretty;
        let ghost cols = old(self).inner_columns();
        let ghost h = module.header.value;
        proof {
            start.same_state_keeps_layout(&after_header);
            if plain {
                assert(after_header.text() == old(self).text() + header_lead(h) + compact_exposing_text(
                    header_exposing(h),
                ));
            }
        }
        assert((old(self).text() + header_prefix(module.header.value)).is_prefix_of(self.text()));
        self.newline();
        self.write_module_doc(&module.module_documentation);
        let ghost after_doc = self.text();
        self.write_imports(module, &slots);
        assert(after_header.extended(&*self));
        let ghost before_decls = *self;
        proof {
            start.same_state_keeps_layout(&before_decls);
        }
        let Ghost(ds) = self.write_declarations_with_comments(module, &slots, num_imports);
        let ghost after_decls = self.text();
        self.write_trailing_orphan_comments(module, &slots, total_anchors);
        let ghost after_trailing = self.text();
        self.newline();
        assert(after_header.extended(&*self));
        proof {
            if module.comments@.len() == 0 && pretty {
                if plain_decls_text(module.declarations@, true, cols) is Some {
                    lemma_pretty_module_written(
                        old(self).text(),
                        after_header.text(),
                        after_doc,
                        before_decls.text(),
                        self.text(),
                        *module,
                        module_docs(*module, old(self).doc_names()),
                        cols,
                        old(self).inner2_columns(),
                    );
                }
            }
            if !pretty {
                let sv = slot_views(slots);
                assert(sv =~= module_slots(*module, false, slots.order@));
                assert(comment_offsets(*module) =~= Seq::new(
                    module.comments@.len(),
                    |i: int| module.comments@[i].span.start.offset,
                ));
                let h = module.header.value;
                assert(after_header.text() == old(self).text() + header_lead(h) + compact_exposing_text(
                    header_exposing(h),
                ));
                lemma_commented_module_text(
                    old(self).text(),
                    after_doc,
                    before_decls.text(),
                    after_decls,
                    after_trailing,
                    self.text(),
                    *module,
                    sv,
                    cols,
                );
                lemma_module_text_with(
                    old(self).text(),
                    after_doc,
                    before_decls.text(),
                    after_decls,
                    after_trailing,
                    self.text(),
                    *module,
                    sv,
                    ds,
                );
                assert(module_text_with(*module, module_slots(*module, false, slots.order@), old(self).text(), ds)
                    == self.text().subrange(old(self).text().len() as int, self.text().len() as int));
                assert(is_stable_sort(comment_offsets(*module), slots.order@));
            }
            if plain && compact_module_text(*module, cols) is Some {
                lemma_compact_module_text(
                    old(self).text(),
                    after_doc,
                    before_decls.text(),
                    self.text(),
                    *module,
                    cols,
                );
            }
        }
    }

    /// The module documentation after a blank line, if there is one.
    fn write_module_doc(&mut self, doc: &Option<Spanned<String>>)
        ensures
            old(self).appended(&*final(self), module_doc_text(*doc, old(self).pretty())),
    {
        match doc {
            Some(d) => {
                self.newline();
                self.write_doc_comment_text(d.value.as_str());
                self.newline();
            },
            None => {},
        }
        assert(self.text() =~= old(self).text() + module_doc_text(*doc, old(self).pretty()));
    }

    /// The imports after a blank line, if there are any: in elm-format
    /// layout sorted and merged, otherwise in source order, each after the
    /// comments of its slot.
    fn write_imports(&mut self, module: &ElmModule, slots: &CommentSlots)
        requires
            old(self).wf(),
            slots_fit(*slots, *module),
        ensures
            old(self).extended(&*final(self)),
            module.imports@.len() == 0 ==> final(self).text() == old(self).text(),
            module.comments@.len() == 0 && old(self).pretty() ==> pretty_imports_part(
                old(self).text(),
                final(self).text(),
                module.imports@,
                old(self).inner_columns(),
                old(self).inner2_columns(),
            ),
            module.comments@.len() == 0 && !old(self).pretty() ==> final(self).text() == old(self).text() + (
            if module.imports@.len() > 0 {
                seq!['\n'] + compact_imports_text(module.imports@)
            } else {
                Seq::empty()
            }),
            !old(self).pretty() ==> final(self).text() == old(self).text() + (if module.imports@.len() > 0 {
                seq!['\n'] + commented_imports_text(
                    *module,
                    slot_views(*slots),
                    old(self).text() + seq!['\n'],
                    module.imports@.len(),
                )
            } else {
                Seq::empty()
            }),
    {
        let pretty = self.is_pretty();
        let ghost plain = module.comments@.len() == 0 && !pretty;
        if module.imports.len() > 0 {
            self.newline();
            if pretty {
                self.write_import_plan(module, slots);
            } else {
                let ghost imports_start = self.text();
                let mut i: usize = 0;
                while i < module.imports.len()
                    invariant
                        i <= module.imports@.len(),
                        old(self).wf(),
                        old(self).extended(&*self),
                        slots_fit(*slots, *module),
                        !pretty,
                        !old(self).pretty(),
                        plain == (module.comments@.len() == 0 && !pretty),
                        plain ==> self.text() == imports_start + compact_imports_text(module.imports@.take(i as int)),
                        imports_start == old(self).text() + seq!['\n'],
                        self.text() == imports_start + commented_imports_text(
                            *module,
                            slot_views(*slots),
                            imports_start,
                            i as nat,
                        ),
                    decreases module.imports@.len() - i,
                {
                    proof {
                        if plain {
                            lemma_no_comments_empty_slots(*slots, *module, i as int);
                        }
                    }
                    let ghost b0 = self.text();
                    self.write_slot_comments(module, &slots.slots[i]);
                    proof {
                        assert(slot_views(*slots)[i as int] == slots.slots@[i as int]@);
                    }
                    self.write_import(&module.imports[i].value);
                    self.newline();
                    proof {
                        assert(self.text() =~= imports_start + commented_imports_text(
                            *module,
                            slot_views(*slots),
                            imports_start,
                            (i + 1) as nat,
                        ));
                        if plain {
                            let t = module.imports@.take(i + 1);
                            assert(t.drop_last() =~= module.imports@.take(i as int));
                            assert(t.last() == module.imports@[i as int]);
                            assert(self.text() =~= imports_start + compact_imports_text(t));
                        }
                    }
                    i = i + 1;
                }
                assert(module.imports@.take(i as int) =~= module.imports@);
            }
        }
    }

    /// The comments of a slot, each on its own line.
    fn write_slot_comments(&mut self, module: &ElmModule, slot: &Vec<usize>)
        requires
            forall|k: int| 0 <= k < slot@.len() ==> slot@[k] < module.comments@.len(),
        ensures
            old(self).appended(
                &*final(self),
                comment_run(
                    old(self).text(),
                    picked_comments(module.comments@, slot@),
                    old(self).pretty(),
                    Seq::empty(),
                    seq!['\n'],
                ),
            ),
            slot@.len() == 0 ==> final(self).text() == old(self).text(),
    {
        self.write_picked_comment_lines(&module.comments, slot);
    }

    /// The comments at positions `slot`, each followed by a line break.
    #[verifier::spinoff_prover]
    fn write_picked_comment_lines(&mut self, comments: &Vec<Spanned<Comment>>, slot: &Vec<usize>)
        requires
            forall|k: int| 0 <= k < slot@.len() ==> slot@[k] < comments@.len(),
        ensures
            old(self).appended(
                &*final(self),
                comment_run(
                    old(self).text(),
                    picked_comments(comments@, slot@),
                    old(self).pretty(),
                    Seq::empty(),
                    seq!['\n'],
                ),
            ),
            slot@.len() == 0 ==> final(self).text() == old(self).text(),
    {
        let ghost pretty = self.pretty();
        let ghost cs = picked_comments(comments@, slot@);
        let ghost tail = seq!['\n'];
        let mut k: usize = 0;
        while k < slot.len()
            invariant
                k <= slot@.len(),
                forall|q: int| 0 <= q < slot@.len() ==> slot@[q] < comments@.len(),
                pretty == old(self).pretty(),
                tail == seq!['\n'],
                cs == picked_comments(comments@, slot@),
                old(self).appended(&*self, comment_run(old(self).text(), cs.take(k as int), pretty, Seq::empty(), tail)),
            decreases slot@.len() - k,
        {
            let c = &comments[slot[k]];
            let ghost prev = comment_run(old(self).text(), cs.take(k as int), pretty, Seq::empty(), tail);
            proof {
                lemma_comment_run_step(old(self).text(), cs, pretty, Seq::empty(), tail, k as int);
                assert(old(self).text() + prev + Seq::<char>::empty() =~= self.text());
                assert(cs[k as int] == *c);
            }
            let ghost col = column_of(self.text());
            self.write_comment(&c.value);
            self.newline();
            proof {
                let ct = comment_text(c.value, pretty, col);
                assert(self.text() == old(self).text() + prev + ct + tail);
                assert(comment_run(old(self).text(), cs.take(k + 1), pretty, Seq::empty(), tail) == prev
                    + Seq::<char>::empty() + ct + tail);
                assert(self.text() =~= old(self).text() + comment_run(
                    old(self).text(),
                    cs.take(k + 1),
                    pretty,
                    Seq::empty(),
                    tail,
                ));
            }
            k = k + 1;
        }
        assert(cs.take(k as int) =~= cs);
    }

    /// The imports in elm-format layout: sorted by module name, imports of
    /// one module merged, each group after the comments of its imports and
    /// a blank line.
    #[verifier::spinoff_prover]
    #[verifier::rlimit(100)]
    fn write_import_plan(&mut self, module: &ElmModule, slots: &CommentSlots)
        requires
            old(self).wf(),
            slots_fit(*slots, *module),
        ensures
            old(self).extended(&*final(self)),
            module.comments@.len() == 0 && old(self).pretty() ==> exists|gs: Seq<Seq<usize>>, texts: Seq<Seq<char>>|
                #[trigger] group_lines(
                    old(self).text(),
                    texts,
                    module.imports@,
                    gs,
                    old(self).inner_columns(),
                    old(self).inner2_columns(),
                ) && sorted_by_module_name(
                    module.imports@,
                    flatten_groups(gs),
                ) && is_grouping(module.imports@, flatten_groups(gs), gs) && texts.last() == final(self).text(),
    {
        let plan = build_import_plan(&module.imports);
        let ghost gs = plan@.map_values(|g: ImportGroup| g.src_indices@);
        let ghost simple = module.comments@.len() == 0 && old(self).pretty();
        let ghost inner = self.inner_columns();
        let ghost inner2 = self.inner2_columns();
        let ghost imports = module.imports@;
        let ghost mut texts: Seq<Seq<char>> = seq![self.text()];
        let mut g: usize = 0;
        while g < plan.len()
            invariant
                g <= plan@.len(),
                old(self).wf(),
                old(self).extended(&*self),
                slots_fit(*slots, *module),
                forall|a: int, k: int|
                    0 <= a < plan@.len() && 0 <= k < plan@[a].src_indices@.len() ==> #[trigger] plan@[a].src_indices@[k]
                        < module.imports@.len(),
                gs == plan@.map_values(|g: ImportGroup| g.src_indices@),
                imports == module.imports@,
                sorted_by_module_name(imports, flatten_groups(gs)),
                is_grouping(imports, flatten_groups(gs), gs),
                simple == (module.comments@.len() == 0 && old(self).pretty()),
                inner == old(self).inner_columns(),
                inner2 == old(self).inner2_columns(),
                simple ==> group_lines(old(self).text(), texts, imports, gs.take(g as int), inner, inner2)
                    && texts.last() == self.text(),
            decreases plan@.len() - g,
        {
            let ghost before = self.text();
            let group = &plan[g].src_indices;
            proof {
                assert(gs[g as int] == group@);
                assert(group@.len() > 0);
            }
            let mut had_comments = false;
            let mut k: usize = 0;
            while k < group.len()
                invariant
                    k <= group@.len(),
                    forall|q: int| 0 <= q < group@.len() ==> #[trigger] group@[q] < module.imports@.len(),
                    slots_fit(*slots, *module),
                    old(self).extended(&*self),
                    simple == (module.comments@.len() == 0 && old(self).pretty()),
                    simple ==> !had_comments && self.text() == before,
                decreases group@.len() - k,
            {
                let idx = group[k];
                proof {
                    if simple {
                        lemma_no_comments_empty_slots(*slots, *module, idx as int);
                    }
                }
                if slots.slots[idx].len() > 0 {
                    had_comments = true;
                    self.write_slot_comments(module, &slots.slots[idx]);
                }
                k = k + 1;
            }
            if had_comments {
                self.newline();
            }
            let ghost mid = self.text();
            proof {
                old(self).same_state_keeps_layout(&*self);
            }
            if group.len() == 1 {
                self.write_import(&module.imports[group[0]].value);
            } else if group.len() > 1 {
                self.write_merged_imports(&module.imports, group);
            }
            let ghost line = self.text();
            self.newline();
            proof {
                if simple {
                    assert(mid == before);
                    assert(group_line(before, line, imports, group@, inner, inner2));
                    assert(group_line_step(before, self.text(), imports, group@, inner, inner2));
                    let t2 = texts.push(self.text());
                    let gt = gs.take(g + 1);
                    assert forall|q: int| 0 <= q < gt.len() implies group_line_step(
                        #[trigger] t2[q],
                        t2[q + 1],
                        imports,
                        gt[q],
                        inner,
                        inner2,
                    ) by {
                        if q < g {
                            assert(t2[q] == texts[q] && t2[q + 1] == texts[q + 1]);
                            assert(gt[q] == gs.take(g as int)[q]);
                        } else {
                            assert(gt[q] == group@);
                        }
                    }
                    assert(group_lines(old(self).text(), t2, imports, gt, inner, inner2));
                    texts = t2;
                }
            }
            g = g + 1;
        }
        proof {
            assert(gs.take(g as int) =~= gs);
        }
    }

    /// Print a whole module.
    pub fn print_module(self, module: &ElmModule) -> (s: String)
        requires
            self.wf(),
            module.imports@.len() + module.declarations@.len() < usize::MAX,
        ensures
            (self.text() + header_prefix(module.header.value)).is_prefix_of(s@),
            s@.last() == '\n',
            module.comments@.len() == 0 && !self.pretty() ==> (compact_module_text(*module, self.inner_columns())
                matches Some(t) ==> s@ == self.text() + t),
            module.comments@.len() == 0 && self.pretty() && plain_decls_text(
                module.declarations@,
                true,
                self.inner_columns(),
            ) is Some ==> pretty_module_written(
                self.text(),
                s@,
                *module,
                module_docs(*module, self.doc_names()),
                self.inner_columns(),
                self.inner2_columns(),
            ),
            !self.pretty() ==> exists|order: Seq<usize>|
                #[trigger] is_stable_sort(comment_offsets(*module), order) && (commented_module_text(
                    *module,
                    module_slots(*module, false, order),
                    self.inner_columns(),
                    self.text(),
                ) matches Some(t) ==> s@ == self.text() + t),
            !self.pretty() ==> compact_module_written(self.text(), s@, *module, self.inner_columns()),
    {
        let mut p = self;
        p.write_module(module);
        p.finish()
    }
}

/// Print a module with the default configuration (the compact layout).
pub fn print(module: &ElmModule) -> (s: String)
    requires
        module.imports@.len() + module.declarations@.len() < usize::MAX,
    ensures
        header_prefix(module.header.value).is_prefix_of(s@),
        s@.last() == '\n',
        module.comments@.len() == 0 ==> (compact_module_text(*module, 4) matches Some(t) ==> s@ == t),
        exists|order: Seq<usize>|
            #[trigger] is_stable_sort(comment_offsets(*module), order) && (commented_module_text(
                *module,
                module_slots(*module, false, order),
                4,
                Seq::empty(),
            ) matches Some(t) ==> s@ == t),
        compact_module_written(Seq::empty(), s@, *module, 4),
{
    let p = Printer::new(PrintConfig::default());
    proof {
        assert(Seq::<char>::empty() + header_prefix(module.header.value) =~= header_prefix(module.header.value));
        if let Some(t) = compact_module_text(*module, 4) {
            assert(Seq::<char>::empty() + t =~= t);
        }
    }
    let s = p.print_module(module);
    proof {
        let order = choose|order: Seq<usize>|
            #[trigger] is_stable_sort(comment_offsets(*module), order) && (commented_module_text(
                *module,
                module_slots(*module, false, order),
                4,
                Seq::empty(),
            ) matches Some(t) ==> s@ == Seq::<char>::empty() + t);
        if let Some(t) = commented_module_text(*module, module_slots(*module, false, order), 4, Seq::empty()) {
            assert(Seq::<char>::empty() + t =~= t);
        }
    }
    s
}

/// Print a module in elm-format layout.
pub fn pretty_print(module: &ElmModule) -> (s: String)
    requires
        module.imports@.len() + module.declarations@.len() < usize::MAX,
    ensures
        header_prefix(module.header.value).is_prefix_of(s@),
        s@.last() == '\n',
        module.comments@.len() == 0 && plain_decls_text(module.declarations@, true, 4) is Some
            ==> pretty_module_written(Seq::empty(), s@, *module, module_docs(*module, Seq::empty()), 4, 8),
{
    let p = Printer::new(PrintConfig { indent_width: 4, style: PrintStyle::ElmFormat });
    proof {
        assert(Seq::<char>::empty() + header_prefix(module.header.value) =~= header_prefix(module.header.value));
    }
    p.print_module(module)
}

/// The line that begins an import with an alias: `import M as A`.
pub open spec fn import_as_prefix(import: Import) -> Seq<char> {
    "import "@ + dotted(import.module_name.value@) + " as "@ + dotted(import.alias->0.value@)
}

/// Law: in elm-format layout an import whose alias differs from its module
/// name keeps the alias: whatever follows, the written line begins with
/// `import M as A`.
#[verifier::spinoff_prover]
#[verifier::rlimit(50)]
pub proof fn law_pretty_import_keeps_distinct_alias(
    old_text: Seq<char>,
    new_text: Seq<char>,
    import: Import,
    inner: nat,
    inner2: nat,
)
    requires
        pretty_import_line(old_text, new_text, import, inner, inner2),
        import.alias is Some,
        import.alias->0.value@.map_values(|s: String| s@) != import.module_name.value@.map_values(|s: String| s@),
    ensures
        new_text.len() >= old_text.len() + import_as_prefix(import).len(),
        new_text.subrange(old_text.len() as int, (old_text.len() + import_as_prefix(import).len()) as int)
            == import_as_prefix(import),
{
    let line = import_as_prefix(import);
    assert(pretty_import_head(import) == line);
    let rest: Seq<char> = if import_exposing_vertical(import) {
        let items = import_items(import);
        let ord = choose|ord: Seq<usize>|
            #[trigger] sorted_by_name(items, identity(items.len()), ord) && new_text == old_text + pretty_import_head(
                import,
            ) + nl(inner) + "exposing"@ + nl(inner2) + seq!['(', ' '] + item_lines_text(items, ord, inner2) + nl(
                inner2,
            ) + seq![')'];
        nl(inner) + "exposing"@ + nl(inner2) + seq!['(', ' '] + item_lines_text(items, ord, inner2) + nl(inner2)
            + seq![')']
    } else {
        match import.exposing {
            Some(e) => {
                let p = " exposing "@;
                match e.value {
                    Exposing::All(_) => p + seq!['(', '.', '.', ')'],
                    Exposing::Explicit(items) => {
                        let ord = choose|ord: Seq<usize>|
                            #[trigger] sorted_by_name(items@, identity(items@.len()), ord) && new_text == old_text
                                + pretty_import_head(import) + p + (seq!['('] + item_list_text(items@, ord) + seq![
                                ')',
                            ]);
                        p + (seq!['('] + item_list_text(items@, ord) + seq![')'])
                    },
                }
            },
            None => Seq::empty(),
        }
    };
    assert(new_text =~= old_text + line + rest);
    assert(new_text.subrange(old_text.len() as int, (old_text.len() + line.len()) as int) =~= line);
}

/// Law: in elm-format layout an import without an alias, or whose alias
/// equals its module name, is written as `import M` followed by nothing
/// but its exposing list: the rest of the line is empty, starts
/// ` exposing `, or the list goes below on a new line.
#[verifier::spinoff_prover]
#[verifier::rlimit(50)]
pub proof fn law_pretty_import_drops_same_alias(
    old_text: Seq<char>,
    new_text: Seq<char>,
    import: Import,
    inner: nat,
    inner2: nat,
)
    requires
        pretty_import_line(old_text, new_text, import, inner, inner2),
        import.alias is None || import.alias->0.value@.map_values(|s: String| s@)
            == import.module_name.value@.map_values(|s: String| s@),
    ensures
        ({
            let line = "import "@ + dotted(import.module_name.value@);
            let start = old_text.len() + line.len();
            let rest = new_text.subrange(start as int, new_text.len() as int);
            &&& new_text.len() >= start
            &&& new_text.subrange(old_text.len() as int, start as int) == line
            &&& rest.len() == 0 || rest[0] == '\n' || (rest.len() >= 10 && rest.subrange(0, 10) == " exposing "@)
        }),
{
    let line = "import "@ + dotted(import.module_name.value@);
    assert(pretty_import_head(import) =~= line);
    let ex = " exposing "@;
    reveal_strlit(" exposing ");
    let rest: Seq<char> = if import_exposing_vertical(import) {
        let items = import_items(import);
        let ord = choose|ord: Seq<usize>|
            #[trigger] sorted_by_name(items, identity(items.len()), ord) && new_text == old_text + pretty_import_head(
                import,
            ) + nl(inner) + "exposing"@ + nl(inner2) + seq!['(', ' '] + item_lines_text(items, ord, inner2) + nl(
                inner2,
            ) + seq![')'];
        let r = nl(inner) + "exposing"@ + nl(inner2) + seq!['(', ' '] + item_lines_text(items, ord, inner2) + nl(
            inner2,
        ) + seq![')'];
        assert(r[0] == '\n');
        r
    } else {
        match import.exposing {
            Some(e) => {
                let r = match e.value {
                    Exposing::All(_) => ex + seq!['(', '.', '.', ')'],
                    Exposing::Explicit(items) => {
                        let ord = choose|ord: Seq<usize>|
                            #[trigger] sorted_by_name(items@, identity(items@.len()), ord) && new_text == old_text
                                + pretty_import_head(import) + ex + (seq!['('] + item_list_text(items@, ord) + seq![
                                ')',
                            ]);
                        ex + (seq!['('] + item_list_text(items@, ord) + seq![')'])
                    },
                };
                assert(r.subrange(0, 10) =~= ex);
                r
            },
            None => Seq::empty(),
        }
    };
    assert(new_text =~= old_text + line + rest);
    assert(new_text.subrange(old_text.len() as int, (old_text.len() + line.len()) as int) =~= line);
    assert(new_text.subrange((old_text.len() + line.len()) as int, new_text.len() as int) =~= rest);
}

} // verus!
