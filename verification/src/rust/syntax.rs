//! What the scan of a Rust source reads from its syntax tree, held as plain
//! values: `use` trees, paths, macro calls, attributes and module items; and
//! the references and pulled-in files that the scan collects from them.
use vstd::prelude::*;

use crate::error::{error_kind, VdmError};
use crate::rust::{copy_names, names_view};
use crate::sort::strings_view;
use crate::text::{chars_of, eq_chars};

verus! {

/// A `use` tree.
#[derive(Debug)]
pub enum RustUseTree {
    /// `name::tree`
    Path(String, Box<RustUseTree>),
    /// A plain name.
    Name(String),
    /// `name as alias`, by its given name.
    Rename(String),
    /// `*`
    Glob,
    /// `{tree, tree, ...}`
    Group(Vec<RustUseTree>),
}

/// The module paths a `use` tree names, each behind `prefix`: a name or a
/// renamed name ends a path, a glob names the prefix itself, and a group
/// names what each of its trees names, in order.
pub open spec fn spec_use_paths(prefix: Seq<Seq<char>>, tree: RustUseTree) -> Seq<Seq<Seq<char>>>
    decreases tree,
{
    match tree {
        RustUseTree::Path(name, sub) => spec_use_paths(prefix.push(name@), *sub),
        RustUseTree::Name(name) => seq![prefix.push(name@)],
        RustUseTree::Rename(name) => seq![prefix.push(name@)],
        RustUseTree::Glob => seq![prefix],
        RustUseTree::Group(items) => spec_group_paths(prefix, items@),
    }
}

/// The module paths the trees of a group name, in order.
pub open spec fn spec_group_paths(prefix: Seq<Seq<char>>, items: Seq<RustUseTree>) -> Seq<Seq<Seq<char>>>
    decreases items,
{
    if items.len() == 0 {
        Seq::empty()
    } else {
        spec_group_paths(prefix, items.subrange(0, items.len() - 1)) + spec_use_paths(prefix, items[items.len() - 1])
    }
}

/// The paths held in a vector, by their names.
pub open spec fn paths_view(v: Seq<Vec<String>>) -> Seq<Seq<Seq<char>>> {
    v.map_values(|p: Vec<String>| names_view(p@))
}

proof fn lemma_group_step(prefix: Seq<Seq<char>>, items: Seq<RustUseTree>, i: int)
    requires
        0 <= i < items.len(),
    ensures
        spec_group_paths(prefix, items.take(i + 1)) == spec_group_paths(prefix, items.take(i)) + spec_use_paths(
            prefix,
            items[i],
        ),
{
    assert(items.take(i + 1).subrange(0, i) =~= items.take(i));
}

/// Appends to `out` the module paths `tree` names behind `prefix`.
pub fn push_use_paths(prefix: &Vec<String>, tree: &RustUseTree, out: &mut Vec<Vec<String>>)
    ensures
        paths_view(final(out)@) == paths_view(old(out)@) + spec_use_paths(names_view(prefix@), *tree),
    decreases tree,
{
    let ghost pv = names_view(prefix@);
    match tree {
        RustUseTree::Path(name, sub) => {
            let mut next = copy_names(prefix.as_slice());
            next.push(name.clone());
            assert(names_view(next@) =~= pv.push(name@));
            push_use_paths(&next, sub, out);
        },
        RustUseTree::Name(name) => {
            let ghost before = paths_view(out@);
            let mut path = copy_names(prefix.as_slice());
            path.push(name.clone());
            assert(names_view(path@) =~= pv.push(name@));
            out.push(path);
            assert(paths_view(out@) =~= before + spec_use_paths(pv, *tree));
        },
        RustUseTree::Rename(name) => {
            let ghost before = paths_view(out@);
            let mut path = copy_names(prefix.as_slice());
            path.push(name.clone());
            assert(names_view(path@) =~= pv.push(name@));
            out.push(path);
            assert(paths_view(out@) =~= before + spec_use_paths(pv, *tree));
        },
        RustUseTree::Glob => {
            let ghost before = paths_view(out@);
            let path = copy_names(prefix.as_slice());
            out.push(path);
            assert(paths_view(out@) =~= before + spec_use_paths(pv, *tree));
        },
        RustUseTree::Group(items) => {
            let ghost start = paths_view(out@);
            let mut i: usize = 0;
            assert(spec_group_paths(pv, items@.take(0)) =~= Seq::<Seq<Seq<char>>>::empty());
            assert(start + spec_group_paths(pv, items@.take(0)) =~= start);
            while i < items.len()
                invariant
                    i <= items@.len(),
                    pv == names_view(prefix@),
                    paths_view(out@) == start + spec_group_paths(pv, items@.take(i as int)),
                    *tree == RustUseTree::Group(*items),
                decreases items@.len() - i,
            {
                assert(decreases_to!(*tree => items@[i as int])) by {
                    assert(decreases_to!(*tree => tree->Group_0));
                    assert(decreases_to!(tree->Group_0 => items@));
                    assert(decreases_to!(items@ => items@[i as int]));
                }
                proof {
                    lemma_group_step(pv, items@, i as int);
                }
                push_use_paths(prefix, &items[i], out);
                assert(paths_view(out@) =~= start + spec_group_paths(pv, items@.take(i + 1)));
                i += 1;
            }
            assert(items@.take(items@.len() as int) =~= items@);
        },
    }
}

/// What the scan of a source meets, in the order of the syntax tree: the body
/// of an inline module opening and closing, a `use` item, a path, and a macro
/// call with the last name of its path and the string literal its arguments
/// are, when they are one.
#[derive(Debug)]
pub enum RustSyntaxEvent {
    EnterModule(String),
    LeaveModule,
    Use(RustUseTree),
    Path(Vec<String>),
    Macro(Option<String>, Option<String>),
}

/// Where the scan stands: the module it is in, the (module, path) references
/// met so far, and the files named by file-pulling macros.
pub struct RustScanView {
    pub scope: Seq<Seq<char>>,
    pub references: Seq<(Seq<Seq<char>>, Seq<Seq<char>>)>,
    pub pulled: Seq<Seq<char>>,
}

/// `crate`, `self` or `super`.
pub open spec fn is_path_keyword(name: Seq<char>) -> bool {
    name == "crate"@ || name == "self"@ || name == "super"@
}

/// A path counts as a module reference when it has more than one name or is a
/// lone `crate`, `self` or `super`.
pub open spec fn spec_path_is_reference(path: Seq<Seq<char>>) -> bool {
    path.len() > 1 || (path.len() == 1 && is_path_keyword(path[0]))
}

/// The name of the macro that pulls in a file's text as code.
pub open spec fn code_macro() -> Seq<char> {
    seq!['i', 'n', 'c', 'l', 'u', 'd', 'e']
}

/// The three macros that pull in a file: as code, as a string, as bytes.
pub open spec fn is_file_macro(name: Seq<char>) -> bool {
    name == code_macro() || name == code_macro() + "_str"@ || name == code_macro() + "_bytes"@
}

/// Each path paired with the module it was written in.
pub open spec fn in_scope(scope: Seq<Seq<char>>, paths: Seq<Seq<Seq<char>>>) -> Seq<(Seq<Seq<char>>, Seq<Seq<char>>)> {
    paths.map_values(|p: Seq<Seq<char>>| (scope, p))
}

/// One event of the scan: an inline module's body is entered and left, a
/// `use` item references every path of its tree, a path is a reference when
/// it counts as one, and a file-pulling macro with a string literal names a file.
pub open spec fn spec_scan_event(s: RustScanView, e: RustSyntaxEvent) -> RustScanView {
    match e {
        RustSyntaxEvent::EnterModule(name) => RustScanView { scope: s.scope.push(name@), ..s },
        RustSyntaxEvent::LeaveModule => RustScanView {
            scope: if s.scope.len() > 0 { s.scope.drop_last() } else { s.scope },
            ..s
        },
        RustSyntaxEvent::Use(tree) => RustScanView {
            references: s.references + in_scope(s.scope, spec_use_paths(Seq::empty(), tree)),
            ..s
        },
        RustSyntaxEvent::Path(path) => if spec_path_is_reference(names_view(path@)) {
            RustScanView { references: s.references.push((s.scope, names_view(path@))), ..s }
        } else {
            s
        },
        RustSyntaxEvent::Macro(name, literal) => match (name, literal) {
            (Some(n), Some(l)) => if is_file_macro(n@) {
                RustScanView { pulled: s.pulled.push(l@), ..s }
            } else {
                s
            },
            _ => s,
        },
    }
}

/// The scan of `events`, started in module `scope`.
pub open spec fn spec_scan(scope: Seq<Seq<char>>, events: Seq<RustSyntaxEvent>) -> RustScanView
    decreases events.len(),
{
    if events.len() == 0 {
        RustScanView { scope, references: Seq::empty(), pulled: Seq::empty() }
    } else {
        spec_scan_event(spec_scan(scope, events.drop_last()), events.last())
    }
}

/// The references held in a vector, by their names.
pub open spec fn references_view(v: Seq<(Vec<String>, Vec<String>)>) -> Seq<(Seq<Seq<char>>, Seq<Seq<char>>)> {
    v.map_values(|r: (Vec<String>, Vec<String>)| (names_view(r.0@), names_view(r.1@)))
}

fn is_path_keyword_exec(name: &String) -> (r: bool)
    ensures
        r == is_path_keyword(name@),
{
    let n = chars_of(name.as_str());
    let a = chars_of("crate");
    let b = chars_of("self");
    let c = chars_of("super");
    proof {
        reveal_strlit("crate");
        reveal_strlit("self");
        reveal_strlit("super");
    }
    eq_chars(n.as_slice(), a.as_slice()) || eq_chars(n.as_slice(), b.as_slice()) || eq_chars(
        n.as_slice(),
        c.as_slice(),
    )
}

fn is_file_macro_exec(name: &String) -> (r: bool)
    ensures
        r == is_file_macro(name@),
{
    let n = chars_of(name.as_str());
    let mut code: Vec<char> = Vec::new();
    code.push('i');
    code.push('n');
    code.push('c');
    code.push('l');
    code.push('u');
    code.push('d');
    code.push('e');
    assert(code@ =~= code_macro());
    let as_str = crate::text::concat2(code.as_slice(), chars_of("_str").as_slice());
    let as_bytes = crate::text::concat2(code.as_slice(), chars_of("_bytes").as_slice());
    eq_chars(n.as_slice(), code.as_slice()) || eq_chars(n.as_slice(), as_str.as_slice()) || eq_chars(
        n.as_slice(),
        as_bytes.as_slice(),
    )
}

/// Scans the events of a source whose top module is `scope`: the references
/// it makes, each with the module it is written in, and the files it pulls in.
pub fn scan_references(scope: &Vec<String>, events: &Vec<RustSyntaxEvent>) -> (r: (Vec<(Vec<String>, Vec<String>)>, Vec<String>))
    ensures
        references_view(r.0@) == spec_scan(names_view(scope@), events@).references,
        strings_view(r.1@) == spec_scan(names_view(scope@), events@).pulled,
{
    let ghost sv = names_view(scope@);
    let mut current = copy_names(scope.as_slice());
    let mut references: Vec<(Vec<String>, Vec<String>)> = Vec::new();
    let mut pulled: Vec<String> = Vec::new();
    let mut i: usize = 0;
    assert(events@.take(0) =~= Seq::<RustSyntaxEvent>::empty());
    assert(references_view(references@) =~= Seq::<(Seq<Seq<char>>, Seq<Seq<char>>)>::empty());
    assert(strings_view(pulled@) =~= Seq::<Seq<char>>::empty());
    while i < events.len()
        invariant
            i <= events@.len(),
            sv == names_view(scope@),
            spec_scan(sv, events@.take(i as int)) == (RustScanView {
                scope: names_view(current@),
                references: references_view(references@),
                pulled: strings_view(pulled@),
            }),
        decreases events@.len() - i,
    {
        assert(events@.take(i + 1).drop_last() =~= events@.take(i as int));
        let ghost before = RustScanView {
            scope: names_view(current@),
            references: references_view(references@),
            pulled: strings_view(pulled@),
        };
        match &events[i] {
            RustSyntaxEvent::EnterModule(name) => {
                current.push(name.clone());
                assert(names_view(current@) =~= before.scope.push(name@));
            },
            RustSyntaxEvent::LeaveModule => {
                if current.len() > 0 {
                    current.pop();
                    assert(names_view(current@) =~= before.scope.drop_last());
                }
            },
            RustSyntaxEvent::Use(tree) => {
                let mut found: Vec<Vec<String>> = Vec::new();
                let empty: Vec<String> = Vec::new();
                assert(names_view(empty@) =~= Seq::<Seq<char>>::empty());
                push_use_paths(&empty, tree, &mut found);
                assert(paths_view(found@) =~= spec_use_paths(Seq::empty(), *tree));
                let mut k: usize = 0;
                let ghost base = references_view(references@);
                assert(in_scope(before.scope, paths_view(found@).take(0)) =~= Seq::<(Seq<Seq<char>>, Seq<Seq<char>>)>::empty());
                assert(base + in_scope(before.scope, paths_view(found@).take(0)) =~= base);
                while k < found.len()
                    invariant
                        k <= found@.len(),
                        names_view(current@) == before.scope,
                        references_view(references@) == base + in_scope(before.scope, paths_view(found@).take(k as int)),
                    decreases found@.len() - k,
                {
                    let ghost mid = references_view(references@);
                    references.push((copy_names(current.as_slice()), copy_names(found[k].as_slice())));
                    assert(references_view(references@) =~= mid.push((before.scope, names_view(found@[k as int]@))));
                    assert(in_scope(before.scope, paths_view(found@).take(k + 1)) =~= in_scope(
                        before.scope,
                        paths_view(found@).take(k as int),
                    ).push((before.scope, names_view(found@[k as int]@))));
                    k += 1;
                }
                assert(paths_view(found@).take(found@.len() as int) =~= paths_view(found@));
            },
            RustSyntaxEvent::Path(path) => {
                let counts = path.len() > 1 || (path.len() == 1 && is_path_keyword_exec(&path[0]));
                assert(counts == spec_path_is_reference(names_view(path@)));
                if counts {
                    references.push((copy_names(current.as_slice()), copy_names(path.as_slice())));
                    assert(references_view(references@) =~= before.references.push((before.scope, names_view(path@))));
                }
            },
            RustSyntaxEvent::Macro(name, literal) => {
                match (name, literal) {
                    (Some(n), Some(l)) => {
                        if is_file_macro_exec(n) {
                            pulled.push(l.clone());
                            assert(strings_view(pulled@) =~= before.pulled.push(l@));
                        }
                    },
                    _ => {},
                }
            },
        }
        i += 1;
    }
    assert(events@.take(events@.len() as int) =~= events@);
    (references, pulled)
}

/// An attribute: the name its path is, when that path is one plain name, and
/// the string literal it is set to, when it has the form `name = "literal"`.
#[derive(Debug)]
pub struct RustAttribute {
    pub name: Option<String>,
    pub value: Option<String>,
}

/// A module item: its name, its attributes, and its body when it is written
/// inline.
#[derive(Debug)]
pub struct RustModItem {
    pub name: String,
    pub attrs: Vec<RustAttribute>,
    pub content: Option<Vec<RustItem>>,
}

/// An item of a source file or of an inline module, as far as module loading
/// reads it.
#[derive(Debug)]
pub enum RustItem {
    Module(RustModItem),
    Other,
}

/// The attribute's path is the one name `name`.
pub open spec fn attribute_named(a: RustAttribute, name: Seq<char>) -> bool {
    a.name matches Some(n) && n@ == name
}

/// The file a module's `#[path]` attribute names: the first such attribute
/// decides, and it must be set to a string literal.
pub open spec fn spec_path_attribute(attrs: Seq<RustAttribute>) -> Result<Option<Seq<char>>, VdmError>
    decreases attrs.len(),
{
    if attrs.len() == 0 {
        Ok(None)
    } else if attribute_named(attrs[0], "path"@) {
        match attrs[0].value {
            Some(v) => Ok(Some(v@)),
            None => Err(VdmError::RustPathAttributeNotString),
        }
    } else {
        spec_path_attribute(attrs.skip(1))
    }
}

/// Some attribute is a `#[cfg]`.
pub open spec fn spec_has_cfg(attrs: Seq<RustAttribute>) -> bool {
    exists|i: int| 0 <= i < attrs.len() && attribute_named(#[trigger] attrs[i], "cfg"@)
}

fn attribute_named_exec(a: &RustAttribute, name: &str) -> (r: bool)
    ensures
        r == attribute_named(*a, name@),
{
    match &a.name {
        Some(n) => eq_chars(chars_of(n.as_str()).as_slice(), chars_of(name).as_slice()),
        None => false,
    }
}

/// The file a module's `#[path]` attribute names, if it has one.
pub fn path_attribute(attrs: &Vec<RustAttribute>) -> (r: Result<Option<String>, VdmError>)
    ensures
        match r {
            Ok(Some(p)) => spec_path_attribute(attrs@) == Ok::<Option<Seq<char>>, VdmError>(Some(p@)),
            Ok(None) => spec_path_attribute(attrs@) == Ok::<Option<Seq<char>>, VdmError>(None),
            Err(e) => spec_path_attribute(attrs@) == Err::<Option<Seq<char>>, VdmError>(error_kind(e)),
        },
{
    let mut i: usize = 0;
    assert(attrs@.skip(0) =~= attrs@);
    while i < attrs.len()
        invariant
            i <= attrs@.len(),
            spec_path_attribute(attrs@) == spec_path_attribute(attrs@.skip(i as int)),
        decreases attrs@.len() - i,
    {
        proof {
            reveal_strlit("path");
        }
        assert(attrs@.skip(i as int)[0] == attrs@[i as int]);
        if attribute_named_exec(&attrs[i], "path") {
            return match &attrs[i].value {
                Some(v) => Ok(Some(v.clone())),
                None => Err(VdmError::RustPathAttributeNotString),
            };
        }
        assert(attrs@.skip(i as int).skip(1) =~= attrs@.skip(i + 1));
        i += 1;
    }
    Ok(None)
}

/// Whether some attribute is a `#[cfg]`.
pub fn has_cfg(attrs: &Vec<RustAttribute>) -> (r: bool)
    ensures
        r == spec_has_cfg(attrs@),
{
    let mut i: usize = 0;
    while i < attrs.len()
        invariant
            i <= attrs@.len(),
            forall|j: int| 0 <= j < i ==> !attribute_named(#[trigger] attrs@[j], "cfg"@),
        decreases attrs@.len() - i,
    {
        if attribute_named_exec(&attrs[i], "cfg") {
            return true;
        }
        i += 1;
    }
    false
}

} // verus!
