//! Import specifiers of JavaScript and TypeScript sources: which of the forms
//! met in a syntax tree name a module, and the specifiers they name.
use vstd::prelude::*;

use crate::sort::{sorted_unique_strings, strictly_sorted_seqs, strings_view};
use crate::text::{chars_of, eq_chars};

verus! {

/// An expression, as far as naming a module goes: a string literal, a
/// template literal without substitutions (its cooked text when it has one,
/// and its raw text), or anything else.
#[derive(Debug)]
pub enum JsExpression {
    Text(String),
    Template(Option<String>, String),
    Other,
}

/// What the scan of a source meets that may name a module: a module its
/// module record requests, the source of an `import(...)` expression, the
/// module of an `import("...")` type, the external module of an
/// `import x = require("...")`, and a call with the name of its callee when
/// that is a plain identifier and its arguments (`None` for a spread).
#[derive(Debug)]
pub enum JsImportEvent {
    Requested(String),
    Dynamic(JsExpression),
    TypeImport(String),
    ImportEquals(Option<String>),
    Call(Option<String>, Vec<Option<JsExpression>>),
}

/// The text an expression names: a string literal's value, or a template
/// literal's cooked text, else its raw text.
pub open spec fn expression_text(e: JsExpression) -> Option<Seq<char>> {
    match e {
        JsExpression::Text(s) => Some(s@),
        JsExpression::Template(cooked, raw) => match cooked {
            Some(c) => Some(c@),
            None => Some(raw@),
        },
        JsExpression::Other => None,
    }
}

/// The specifier an event names, if any: a call names one only when it calls
/// `require` with exactly one argument.
pub open spec fn event_specifier(e: JsImportEvent) -> Option<Seq<char>> {
    match e {
        JsImportEvent::Requested(s) => Some(s@),
        JsImportEvent::Dynamic(x) => expression_text(x),
        JsImportEvent::TypeImport(s) => Some(s@),
        JsImportEvent::ImportEquals(m) => match m {
            Some(s) => Some(s@),
            None => None,
        },
        JsImportEvent::Call(callee, args) => match callee {
            Some(name) => if name@ == "require"@ && args@.len() == 1 {
                match args@[0] {
                    Some(x) => expression_text(x),
                    None => None,
                }
            } else {
                None
            },
            None => None,
        },
    }
}

/// The non-empty specifiers the events name.
pub open spec fn spec_import_specifiers(events: Seq<JsImportEvent>) -> Set<Seq<char>> {
    Set::new(
        |s: Seq<char>| s.len() > 0 && exists|i: int| 0 <= i < events.len() && #[trigger] event_specifier(events[i]) == Some(s),
    )
}

fn expression_text_exec(e: &JsExpression) -> (r: Option<String>)
    ensures
        crate::path::opt_string_view(r) == expression_text(*e),
{
    match e {
        JsExpression::Text(s) => Some(s.clone()),
        JsExpression::Template(cooked, raw) => match cooked {
            Some(c) => Some(c.clone()),
            None => Some(raw.clone()),
        },
        JsExpression::Other => None,
    }
}

fn event_specifier_exec(e: &JsImportEvent) -> (r: Option<String>)
    ensures
        crate::path::opt_string_view(r) == event_specifier(*e),
{
    match e {
        JsImportEvent::Requested(s) => Some(s.clone()),
        JsImportEvent::Dynamic(x) => expression_text_exec(x),
        JsImportEvent::TypeImport(s) => Some(s.clone()),
        JsImportEvent::ImportEquals(m) => match m {
            Some(s) => Some(s.clone()),
            None => None,
        },
        JsImportEvent::Call(callee, args) => match callee {
            Some(name) => {
                proof {
                    reveal_strlit("require");
                }
                if eq_chars(chars_of(name.as_str()).as_slice(), chars_of("require").as_slice()) && args.len() == 1 {
                    match &args[0] {
                        Some(x) => expression_text_exec(x),
                        None => None,
                    }
                } else {
                    None
                }
            },
            None => None,
        },
    }
}

/// The modules a source imports, sorted and each once: the non-empty
/// specifiers its events name.
pub fn import_specifiers(events: &Vec<JsImportEvent>) -> (r: Vec<String>)
    ensures
        strictly_sorted_seqs(strings_view(r@)),
        strings_view(r@).to_set() == spec_import_specifiers(events@),
{
    let mut found: Vec<String> = Vec::new();
    let mut i: usize = 0;
    while i < events.len()
        invariant
            i <= events@.len(),
            forall|s: Seq<char>| #[trigger] strings_view(found@).contains(s) <==> (s.len() > 0 && exists|j: int|
                0 <= j < i && #[trigger] event_specifier(events@[j]) == Some(s)),
        decreases events@.len() - i,
    {
        let ghost before = strings_view(found@);
        match event_specifier_exec(&events[i]) {
            Some(s) => {
                if chars_of(s.as_str()).len() > 0 {
                    found.push(s);
                    proof {
                        let sv = event_specifier(events@[i as int])->0;
                        assert(strings_view(found@) =~= before.push(sv));
                        assert forall|x: Seq<char>| #[trigger] strings_view(found@).contains(x) <==> (x.len() > 0 && exists|j: int|
                            0 <= j < i + 1 && #[trigger] event_specifier(events@[j]) == Some(x)) by {
                            if strings_view(found@).contains(x) && x != sv {
                                let q = choose|q: int| 0 <= q < strings_view(found@).len() && strings_view(found@)[q] == x;
                                assert(before[q] == x);
                                assert(before.contains(x));
                            }
                            if x.len() > 0 && exists|j: int| 0 <= j < i + 1 && #[trigger] event_specifier(events@[j]) == Some(x) {
                                let j = choose|j: int| 0 <= j < i + 1 && #[trigger] event_specifier(events@[j]) == Some(x);
                                if j < i {
                                    assert(before.contains(x));
                                    let q = choose|q: int| 0 <= q < before.len() && before[q] == x;
                                    assert(strings_view(found@)[q] == x);
                                } else {
                                    assert(strings_view(found@)[before.len() as int] == x);
                                }
                            }
                            if x == sv {
                                assert(strings_view(found@)[before.len() as int] == x);
                                assert(event_specifier(events@[i as int]) == Some(x));
                            }
                        }
                    }
                } else {
                    proof {
                        assert forall|x: Seq<char>| #[trigger] strings_view(found@).contains(x) <==> (x.len() > 0 && exists|j: int|
                            0 <= j < i + 1 && #[trigger] event_specifier(events@[j]) == Some(x)) by {
                            if x.len() > 0 && exists|j: int| 0 <= j < i + 1 && #[trigger] event_specifier(events@[j]) == Some(x) {
                                let j = choose|j: int| 0 <= j < i + 1 && #[trigger] event_specifier(events@[j]) == Some(x);
                                if j == i {
                                    assert(x.len() == 0);
                                }
                            }
                        }
                    }
                }
            },
            None => {
                proof {
                    assert forall|x: Seq<char>| #[trigger] strings_view(found@).contains(x) <==> (x.len() > 0 && exists|j: int|
                        0 <= j < i + 1 && #[trigger] event_specifier(events@[j]) == Some(x)) by {
                        if x.len() > 0 && exists|j: int| 0 <= j < i + 1 && #[trigger] event_specifier(events@[j]) == Some(x) {
                            let j = choose|j: int| 0 <= j < i + 1 && #[trigger] event_specifier(events@[j]) == Some(x);
                            assert(j < i);
                        }
                    }
                }
            },
        }
        i += 1;
    }
    let r = sorted_unique_strings(found);
    proof {
        assert forall|s: Seq<char>| #[trigger] strings_view(r@).to_set().contains(s) <==> spec_import_specifiers(events@).contains(s) by {
        }
        assert(strings_view(r@).to_set() =~= spec_import_specifiers(events@));
    }
    r
}

} // verus!
