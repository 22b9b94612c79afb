use std::path::Path;

use oxc_allocator::Allocator;
use oxc_ast::ast::{
    CallExpression, Expression, ImportExpression, TSImportEqualsDeclaration, TSImportType, TSModuleReference,
};
use oxc_ast_visit::{walk, Visit};
use oxc_parser::Parser;
use oxc_span::SourceType;
use vdm::javascript::{import_specifiers, JsExpression, JsImportEvent};

fn expression(expression: &Expression<'_>) -> JsExpression {
    match expression {
        Expression::StringLiteral(literal) => JsExpression::Text(literal.value.to_string()),
        Expression::TemplateLiteral(template) if template.is_no_substitution_template() => JsExpression::Template(
            template.quasis[0].value.cooked.as_ref().map(|value| value.to_string()),
            template.quasis[0].value.raw.to_string(),
        ),
        _ => JsExpression::Other,
    }
}

struct EventCollector {
    events: Vec<JsImportEvent>,
}

impl<'a> Visit<'a> for EventCollector {
    fn visit_import_expression(&mut self, import: &ImportExpression<'a>) {
        self.events.push(JsImportEvent::Dynamic(expression(&import.source)));
        walk::walk_import_expression(self, import);
    }

    fn visit_ts_import_type(&mut self, import: &TSImportType<'a>) {
        self.events.push(JsImportEvent::TypeImport(import.source.value.to_string()));
        walk::walk_ts_import_type(self, import);
    }

    fn visit_ts_import_equals_declaration(&mut self, import: &TSImportEqualsDeclaration<'a>) {
        let module = match &import.module_reference {
            TSModuleReference::ExternalModuleReference(reference) => Some(reference.expression.value.to_string()),
            _ => None,
        };
        self.events.push(JsImportEvent::ImportEquals(module));
        walk::walk_ts_import_equals_declaration(self, import);
    }

    fn visit_call_expression(&mut self, call: &CallExpression<'a>) {
        let callee = match &call.callee {
            Expression::Identifier(identifier) => Some(identifier.name.to_string()),
            _ => None,
        };
        let arguments = call.arguments.iter().map(|argument| argument.as_expression().map(expression)).collect();
        self.events.push(JsImportEvent::Call(callee, arguments));
        walk::walk_call_expression(self, call);
    }
}

fn javascript_dependencies(path: &Path, bytes: &[u8]) -> Vec<String> {
    let source_type = SourceType::from_path(path).unwrap();
    let source = std::str::from_utf8(bytes).unwrap();
    let allocator = Allocator::default();
    let parsed = Parser::new(&allocator, source, source_type).parse();
    assert!(parsed.diagnostics.is_empty());
    let mut collector = EventCollector { events: Vec::new() };
    for specifier in parsed.module_record.requested_modules.keys() {
        collector.events.push(JsImportEvent::Requested(specifier.to_string()));
    }
    collector.visit_program(&parsed.program);
    import_specifiers(&collector.events)
}

#[test]
fn extracts_static_javascript_and_typescript_dependencies() {
    let source = br#"
            import value from "./static.ts";
            export * from "./exported.ts";
            import type { Type } from "./type.ts";
            type Inline = import("./inline.ts").Type;
            const dynamic = import(`./dynamic.ts`);
            const commonjs = require("./commonjs.ts");
            const ignored = import("./" + name);
        "#;
    assert_eq!(
        javascript_dependencies(Path::new("file.ts"), source),
        vec!["./commonjs.ts", "./dynamic.ts", "./exported.ts", "./inline.ts", "./static.ts", "./type.ts"]
    );
}

#[test]
fn only_single_argument_require_calls_and_literal_imports_count() {
    let events = vec![
        JsImportEvent::Call(Some("require".into()), vec![Some(JsExpression::Text("./a.js".into()))]),
        JsImportEvent::Call(Some("require".into()), vec![Some(JsExpression::Text("./b.js".into())), None]),
        JsImportEvent::Call(Some("load".into()), vec![Some(JsExpression::Text("./c.js".into()))]),
        JsImportEvent::Call(None, vec![Some(JsExpression::Text("./d.js".into()))]),
        JsImportEvent::Dynamic(JsExpression::Template(None, "./raw.js".into())),
        JsImportEvent::Dynamic(JsExpression::Template(Some("./cooked.js".into()), "./raw2.js".into())),
        JsImportEvent::Dynamic(JsExpression::Other),
        JsImportEvent::ImportEquals(Some("./eq.js".into())),
        JsImportEvent::ImportEquals(None),
        JsImportEvent::Requested("".into()),
        JsImportEvent::TypeImport("./a.js".into()),
    ];
    assert_eq!(import_specifiers(&events), vec!["./a.js", "./cooked.js", "./eq.js", "./raw.js"]);
}
