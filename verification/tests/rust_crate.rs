use std::collections::BTreeMap;

use syn::visit::{self, Visit};
use vdm::error::VdmError;
use vdm::rust::load::{
    child_module_dir, choose_module_file, crate_root_candidates, existing_roots, find_manifest, manifest_candidates,
    module_candidates, RustCargoManifest, RustCargoTarget, RustCrateLoader, RustLoadRequest,
};
use vdm::rust::syntax::{
    has_cfg, path_attribute, push_use_paths, scan_references, RustAttribute, RustItem, RustModItem, RustSyntaxEvent,
    RustUseTree,
};
use vdm::rust::{select_crate, RustResolver};

struct MemoryFileSystem(BTreeMap<String, Vec<u8>>);

impl MemoryFileSystem {
    fn new(files: &[(&str, &str)]) -> Self {
        MemoryFileSystem(files.iter().map(|(path, text)| (path.to_string(), text.as_bytes().to_vec())).collect())
    }

    fn read(&self, path: &str) -> Option<&Vec<u8>> {
        self.0.get(path)
    }

    fn present(&self, paths: &[String]) -> Vec<bool> {
        paths.iter().map(|path| self.0.contains_key(path)).collect()
    }
}

fn use_tree(tree: &syn::UseTree) -> RustUseTree {
    match tree {
        syn::UseTree::Path(path) => RustUseTree::Path(path.ident.to_string(), Box::new(use_tree(&path.tree))),
        syn::UseTree::Name(name) => RustUseTree::Name(name.ident.to_string()),
        syn::UseTree::Rename(rename) => RustUseTree::Rename(rename.ident.to_string()),
        syn::UseTree::Glob(_) => RustUseTree::Glob,
        syn::UseTree::Group(group) => RustUseTree::Group(group.items.iter().map(use_tree).collect()),
    }
}

fn attribute(attribute: &syn::Attribute) -> RustAttribute {
    let value = match &attribute.meta {
        syn::Meta::NameValue(pair) => match &pair.value {
            syn::Expr::Lit(syn::ExprLit { lit: syn::Lit::Str(text), .. }) => Some(text.value()),
            _ => None,
        },
        _ => None,
    };
    RustAttribute { name: attribute.path().get_ident().map(ToString::to_string), value }
}

fn items(items: &[syn::Item]) -> Vec<RustItem> {
    items
        .iter()
        .map(|item| match item {
            syn::Item::Mod(module) => RustItem::Module(RustModItem {
                name: module.ident.to_string(),
                attrs: module.attrs.iter().map(attribute).collect(),
                content: module.content.as_ref().map(|(_, inner)| self::items(inner)),
            }),
            _ => RustItem::Other,
        })
        .collect()
}

#[derive(Default)]
struct EventCollector {
    events: Vec<RustSyntaxEvent>,
}

impl<'ast> Visit<'ast> for EventCollector {
    fn visit_item_use(&mut self, item: &'ast syn::ItemUse) {
        self.events.push(RustSyntaxEvent::Use(use_tree(&item.tree)));
    }

    fn visit_item_mod(&mut self, item: &'ast syn::ItemMod) {
        if item.content.is_some() {
            self.events.push(RustSyntaxEvent::EnterModule(item.ident.to_string()));
            visit::visit_item_mod(self, item);
            self.events.push(RustSyntaxEvent::LeaveModule);
        }
    }

    fn visit_path(&mut self, path: &'ast syn::Path) {
        let names = path.segments.iter().map(|segment| segment.ident.to_string()).collect();
        self.events.push(RustSyntaxEvent::Path(names));
        visit::visit_path(self, path);
    }

    fn visit_macro(&mut self, item: &'ast syn::Macro) {
        let name = item.path.segments.last().map(|segment| segment.ident.to_string());
        let literal = syn::parse2::<syn::LitStr>(item.tokens.clone()).ok().map(|text| text.value());
        self.events.push(RustSyntaxEvent::Macro(name, literal));
        visit::visit_macro(self, item);
    }
}

fn events_of(source: &str) -> Vec<RustSyntaxEvent> {
    let file = syn::parse_file(source).unwrap();
    let mut collector = EventCollector::default();
    collector.visit_file(&file);
    collector.events
}

fn cargo_manifest(text: &str) -> RustCargoManifest {
    let table: toml::Table = toml::from_str(text).unwrap();
    let target = |value: &toml::Value| RustCargoTarget {
        path: value.get("path").and_then(|path| path.as_str()).map(ToString::to_string),
    };
    RustCargoManifest {
        lib: table.get("lib").map(target),
        bin: table.get("bin").and_then(|bins| bins.as_array()).map(|bins| bins.iter().map(target).collect()).unwrap_or_default(),
    }
}

fn load_root(files: &MemoryFileSystem, root: String) -> Result<RustResolver, VdmError> {
    let mut loader = RustCrateLoader::start(root);
    loop {
        loader = match loader.request() {
            RustLoadRequest::Read(path) => {
                let text = std::str::from_utf8(files.read(&path).unwrap()).unwrap().to_string();
                loader.read_done(items(&syn::parse_file(&text).unwrap().items))
            }
            RustLoadRequest::Probe(candidates) => loader.probe_done(&files.present(&candidates))?,
            RustLoadRequest::Step => loader.step()?,
            RustLoadRequest::Done => return Ok(loader.finish()),
        };
    }
}

fn load_crate(files: &MemoryFileSystem, requested: &str) -> Result<RustResolver, VdmError> {
    let candidates = manifest_candidates(requested);
    let manifest = find_manifest(&candidates, &files.present(&candidates), requested)?;
    let text = std::str::from_utf8(files.read(&manifest).unwrap()).unwrap().to_string();
    let roots = crate_root_candidates(&manifest, &cargo_manifest(&text))?;
    let roots = existing_roots(&roots, &files.present(&roots), &manifest)?;
    let mut loaded = Vec::new();
    for root in roots {
        loaded.push(load_root(files, root)?);
    }
    select_crate(requested, loaded)
}

fn dependencies_of(files: &MemoryFileSystem, resolver: &RustResolver, path: &str, source: &str) -> Result<Vec<String>, VdmError> {
    let events = events_of(source);
    let pulled = resolver.pulled_candidates(path, &events)?;
    let exists: Vec<bool> = pulled.iter().map(|file| file.as_deref().is_some_and(|file| files.0.contains_key(file))).collect();
    resolver.dependencies(path, &events, &exists)
}

fn names(v: &[&str]) -> Vec<String> {
    v.iter().map(|s| s.to_string()).collect()
}

const PACKAGE: &str = "[package]\nname='fixture'\nversion='0.1.0'\n";

#[test]
fn resolves_crate_and_super_module_dependencies() {
    let files = MemoryFileSystem::new(&[
        ("pkg/Cargo.toml", PACKAGE),
        ("pkg/src/lib.rs", "mod drill; mod error;\n"),
        ("pkg/src/drill.rs", "use crate::error::{Error, Result}; mod nested { use super::*; }\n"),
        ("pkg/src/error.rs", "pub struct Error; pub type Result = ();\n"),
    ]);
    let resolver = load_crate(&files, "pkg/src/drill.rs").unwrap();
    let source = "use crate::error::{Error, Result}; mod nested { use super::*; }\n";
    assert_eq!(dependencies_of(&files, &resolver, "pkg/src/drill.rs", source).unwrap(), names(&["pkg/src/error.rs"]));
}

#[test]
fn resolves_module_layouts_path_attributes_and_includes() {
    let files = MemoryFileSystem::new(&[
        ("pkg/Cargo.toml", PACKAGE),
        ("pkg/src/lib.rs", "mod parent;\n"),
        ("pkg/src/parent.rs", "#[path = \"alternate.rs\"] mod child;\n"),
        ("pkg/src/alternate.rs", "include_str!(\"data.txt\");\n"),
        ("pkg/src/data.txt", "data"),
    ]);
    let resolver = load_crate(&files, "pkg/src/parent.rs").unwrap();
    assert_eq!(
        dependencies_of(&files, &resolver, "pkg/src/parent.rs", "#[path = \"alternate.rs\"] mod child;\n").unwrap(),
        names(&["pkg/src/alternate.rs"])
    );
    assert_eq!(
        dependencies_of(&files, &resolver, "pkg/src/alternate.rs", "include_str!(\"data.txt\");\n").unwrap(),
        names(&["pkg/src/data.txt"])
    );
}

#[test]
fn manifests_are_looked_for_from_the_nearest_folder_up() {
    assert_eq!(
        manifest_candidates("pkg/src/drill.rs"),
        names(&["pkg/src/Cargo.toml", "pkg/Cargo.toml", "Cargo.toml"])
    );
    let candidates = manifest_candidates("pkg/src/drill.rs");
    assert_eq!(find_manifest(&candidates, &vec![false, true, true], "pkg/src/lib.rs").unwrap(), "pkg/Cargo.toml");
    match find_manifest(&candidates, &vec![false, false], "pkg/src/lib.rs") {
        Err(e @ VdmError::RustManifestMissing(_)) => assert_eq!(e.message(), "Cannot find a Cargo.toml containing pkg/src/lib.rs"),
        other => panic!("expected a missing manifest, got {other:?}"),
    }
}

#[test]
fn crate_roots_come_from_the_manifest_targets() {
    let manifest = cargo_manifest("[lib]\npath = 'lib/./root.rs'\n[[bin]]\npath = 'bin/tool.rs'\n[[bin]]\nname = 'x'\n");
    let roots = crate_root_candidates("pkg/Cargo.toml", &manifest).unwrap();
    assert_eq!(roots, names(&["pkg/bin/tool.rs", "pkg/lib/root.rs", "pkg/src/main.rs"]));
    let plain = crate_root_candidates("pkg/Cargo.toml", &cargo_manifest(PACKAGE)).unwrap();
    assert_eq!(plain, names(&["pkg/src/lib.rs", "pkg/src/main.rs"]));
    let escaping = cargo_manifest("[[bin]]\npath = '../../outside.rs'\n");
    assert!(matches!(crate_root_candidates("pkg/Cargo.toml", &escaping), Err(VdmError::RustPathEscapes(_))));
    assert_eq!(existing_roots(&plain, &vec![false, true], "pkg/Cargo.toml").unwrap(), names(&["pkg/src/main.rs"]));
    match existing_roots(&plain, &vec![false, false], "pkg/Cargo.toml") {
        Err(e @ VdmError::RustCrateRootMissing(_)) => {
            assert_eq!(e.message(), "pkg/Cargo.toml does not define a readable Rust crate root")
        }
        other => panic!("expected a missing crate root, got {other:?}"),
    }
}

#[test]
fn use_trees_name_each_of_their_paths() {
    let tree = RustUseTree::Path(
        "crate".to_string(),
        Box::new(RustUseTree::Group(vec![
            RustUseTree::Name("a".to_string()),
            RustUseTree::Path("b".to_string(), Box::new(RustUseTree::Glob)),
            RustUseTree::Rename("c".to_string()),
        ])),
    );
    let mut out = Vec::new();
    push_use_paths(&Vec::new(), &tree, &mut out);
    assert_eq!(out, vec![names(&["crate", "a"]), names(&["crate", "b"]), names(&["crate", "c"])]);
}

#[test]
fn the_scan_keeps_module_references_and_pulled_files() {
    let events = events_of(
        "use std::fmt; fn f() { helper(); crate::a::b(); self::c(); x::y(); include!(\"gen.rs\"); println!(\"text\"); }\n\
         mod inner { use super::d; }\n",
    );
    let (references, pulled) = scan_references(&names(&["top"]), &events);
    let written: Vec<(Vec<String>, Vec<String>)> = vec![
        (names(&["top"]), names(&["std", "fmt"])),
        (names(&["top"]), names(&["crate", "a", "b"])),
        (names(&["top"]), names(&["self", "c"])),
        (names(&["top"]), names(&["x", "y"])),
        (names(&["top", "inner"]), names(&["super", "d"])),
    ];
    assert_eq!(references, written);
    assert_eq!(pulled, names(&["gen.rs"]));
}

#[test]
fn module_files_follow_path_attributes_and_layouts() {
    let path_attr = |value: Option<&str>| RustAttribute { name: Some("path".to_string()), value: value.map(ToString::to_string) };
    let cfg = RustAttribute { name: Some("cfg".to_string()), value: None };
    assert_eq!(path_attribute(&vec![cfg, path_attr(Some("x.rs"))]).unwrap(), Some("x.rs".to_string()));
    assert!(matches!(path_attribute(&vec![path_attr(None)]), Err(VdmError::RustPathAttributeNotString)));
    assert!(has_cfg(&vec![RustAttribute { name: Some("cfg".to_string()), value: None }]));
    assert!(!has_cfg(&vec![path_attr(Some("x.rs"))]));
    let plain = RustModItem { name: "child".to_string(), attrs: Vec::new(), content: None };
    assert_eq!(
        module_candidates(&plain, "pkg/src/parent", "pkg/src").unwrap(),
        names(&["pkg/src/parent/child.rs", "pkg/src/parent/child/mod.rs"])
    );
    let pathed = RustModItem { name: "child".to_string(), attrs: vec![path_attr(Some("../other.rs"))], content: None };
    assert_eq!(module_candidates(&pathed, "pkg/src/parent", "pkg/src").unwrap(), names(&["pkg/other.rs"]));
    let candidates = names(&["a.rs", "a/mod.rs"]);
    match choose_module_file(&candidates, &vec![true, true], false, "a") {
        Err(e @ VdmError::RustModuleAmbiguous(_)) => assert_eq!(e.message(), "Rust module a resolves to multiple files"),
        other => panic!("expected an ambiguous module, got {other:?}"),
    }
    match choose_module_file(&candidates, &vec![false, false], false, "a") {
        Err(e @ VdmError::RustModuleFileMissing(_)) => assert_eq!(e.message(), "Cannot find source file for Rust module a"),
        other => panic!("expected a missing module file, got {other:?}"),
    }
    assert_eq!(choose_module_file(&candidates, &vec![false, false], true, "a").unwrap(), None);
    assert_eq!(choose_module_file(&candidates, &vec![false, true], false, "a").unwrap(), Some("a/mod.rs".to_string()));
    assert_eq!(child_module_dir("pkg/src/a/mod.rs"), "pkg/src/a");
    assert_eq!(child_module_dir("pkg/src/a.rs"), "pkg/src/a");
}

#[test]
fn crates_refuse_shared_or_missing_modules() {
    let missing = MemoryFileSystem::new(&[("pkg/Cargo.toml", PACKAGE), ("pkg/src/lib.rs", "mod gone;\n")]);
    assert!(matches!(load_crate(&missing, "pkg/src/lib.rs"), Err(VdmError::RustModuleFileMissing(_))));
    let optional = MemoryFileSystem::new(&[("pkg/Cargo.toml", PACKAGE), ("pkg/src/lib.rs", "#[cfg(test)] mod gone;\n")]);
    assert!(load_crate(&optional, "pkg/src/lib.rs").is_ok());
    let twice = MemoryFileSystem::new(&[
        ("pkg/Cargo.toml", PACKAGE),
        ("pkg/src/lib.rs", "#[path = \"a.rs\"] mod x; #[path = \"a.rs\"] mod y;\n"),
        ("pkg/src/a.rs", ""),
    ]);
    assert!(matches!(load_crate(&twice, "pkg/src/lib.rs"), Err(VdmError::RustModuleMountedTwice(_))));
    let shared = MemoryFileSystem::new(&[
        ("pkg/Cargo.toml", PACKAGE),
        ("pkg/src/lib.rs", "mod shared;\n"),
        ("pkg/src/main.rs", "mod shared;\n"),
        ("pkg/src/shared.rs", ""),
    ]);
    match load_crate(&shared, "pkg/src/shared.rs") {
        Err(e @ VdmError::RustCrateRootCount(_, 2)) => assert_eq!(
            e.message(),
            "pkg/src/shared.rs belongs to 2 discovered Rust crate roots; expected exactly one"
        ),
        other => panic!("expected two crate roots, got {other:?}"),
    }
    let loose = MemoryFileSystem::new(&[("pkg/Cargo.toml", PACKAGE), ("pkg/src/lib.rs", "")]);
    assert!(matches!(load_crate(&loose, "pkg/src/other.rs"), Err(VdmError::RustCrateRootCount(_, 0))));
}

#[test]
fn dependencies_refuse_missing_pulled_files() {
    let files = MemoryFileSystem::new(&[("pkg/Cargo.toml", PACKAGE), ("pkg/src/lib.rs", "mod a;\n"), ("pkg/src/a.rs", "")]);
    let resolver = load_crate(&files, "pkg/src/a.rs").unwrap();
    assert!(matches!(
        dependencies_of(&files, &resolver, "pkg/src/a.rs", "include!(\"missing.rs\");"),
        Err(VdmError::RustIncludedFileMissing(_, _))
    ));
    assert!(matches!(
        dependencies_of(&files, &resolver, "pkg/src/a.rs", "include!(\"../../../x.rs\");"),
        Err(VdmError::RustPathEscapes(_))
    ));
    assert!(matches!(dependencies_of(&files, &resolver, "pkg/src/b.rs", ""), Err(VdmError::RustFileNotInCrate(_))));
    assert_eq!(dependencies_of(&files, &resolver, "pkg/src/lib.rs", "mod a;\n").unwrap(), names(&["pkg/src/a.rs"]));
}
