use ctx_codegraph::model::SymbolKind;
use ctx_codegraph::rust_parser::{clean_type_name, parse_rust_source};

const PATH: &str = "/work/src/lib.rs";

#[test]
fn test_free_function() {
    let code = r#"
            pub fn run_pipeline() {
                load();
            }

            fn load() {}
        "#;
    let (symbols, _call_sites) = parse_rust_source(PATH, code).unwrap();

    let run_pipeline = symbols.iter().find(|s| s.name == "run_pipeline").unwrap();
    let load = symbols.iter().find(|s| s.name == "load").unwrap();

    assert_eq!(run_pipeline.kind, SymbolKind::Function);
    assert_eq!(load.kind, SymbolKind::Function);
    assert!(run_pipeline.range.start_line > 0);
    assert!(run_pipeline.body_range.is_some());
}

#[test]
fn test_impl_methods() {
    let code = r#"
            pub struct Pipeline;

            impl Pipeline {
                pub fn new() -> Self {
                    Self
                }

                pub fn run(&self) {
                    self.load();
                }

                fn load(&self) {}
            }
        "#;
    let (symbols, _call_sites) = parse_rust_source(PATH, code).unwrap();

    let pipeline = symbols
        .iter()
        .find(|s| s.name == "Pipeline" && s.kind == SymbolKind::Struct)
        .unwrap();
    let new_method = symbols.iter().find(|s| s.name == "new").unwrap();
    let run_method = symbols.iter().find(|s| s.name == "run").unwrap();
    let load_method = symbols.iter().find(|s| s.name == "load").unwrap();

    assert_eq!(pipeline.kind, SymbolKind::Struct);
    assert_eq!(new_method.kind, SymbolKind::Method);
    assert_eq!(run_method.kind, SymbolKind::Method);
    assert_eq!(load_method.kind, SymbolKind::Method);

    assert!(new_method.qualified_name.contains("Pipeline"));
    assert!(run_method.qualified_name.contains("Pipeline"));
    assert!(load_method.qualified_name.contains("Pipeline"));
}

#[test]
fn test_trait_methods_and_declaration() {
    let code = r#"
            pub trait Runner {
                fn run(&self);
            }

            pub struct Job;

            impl Runner for Job {
                fn run(&self) {}
            }
        "#;
    let (symbols, _call_sites) = parse_rust_source(PATH, code).unwrap();

    let runner = symbols
        .iter()
        .find(|s| s.name == "Runner" && s.kind == SymbolKind::Trait)
        .unwrap();
    let run_impl = symbols
        .iter()
        .find(|s| s.name == "run" && s.kind == SymbolKind::Method)
        .unwrap();

    assert_eq!(runner.kind, SymbolKind::Trait);
    assert!(run_impl.qualified_name.contains("Job"));
    assert!(run_impl.qualified_name.contains("Runner"));
}

#[test]
fn test_test_functions() {
    let code = r#"
            #[test]
            fn test_run_pipeline() {
                run_pipeline();
            }

            fn helper() {}
        "#;
    let (symbols, _call_sites) = parse_rust_source(PATH, code).unwrap();

    let test_run = symbols.iter().find(|s| s.name == "test_run_pipeline").unwrap();
    let helper = symbols.iter().find(|s| s.name == "helper").unwrap();

    assert_eq!(test_run.kind, SymbolKind::Test);
    assert_eq!(helper.kind, SymbolKind::Function);
}

#[test]
fn test_simple_call() {
    let code = r#"
            fn run_pipeline() {
                load();
            }
            fn load() {}
        "#;
    let (symbols, call_sites) = parse_rust_source(PATH, code).unwrap();

    let run_pipeline_idx = symbols.iter().position(|s| s.name == "run_pipeline").unwrap();
    let call = call_sites.iter().find(|c| c.raw_name == "load").unwrap();

    assert_eq!(call.from_temp_index, Some(run_pipeline_idx));
}

#[test]
fn test_qualified_path_call() {
    let code = r#"
            fn run_pipeline() {
                crate::pipeline::load();
            }
        "#;
    let (_symbols, call_sites) = parse_rust_source(PATH, code).unwrap();

    let call = call_sites.iter().find(|c| c.raw_name == "crate::pipeline::load").unwrap();
    assert_eq!(call.raw_name, "crate::pipeline::load");
}

#[test]
fn test_method_call() {
    let code = r#"
            struct Pipeline;

            impl Pipeline {
                fn run(&self) {
                    self.load();
                }

                fn load(&self) {}
            }
        "#;
    let (symbols, call_sites) = parse_rust_source(PATH, code).unwrap();

    let run_idx = symbols.iter().position(|s| s.name == "run").unwrap();
    let call = call_sites.iter().find(|c| c.raw_name == "self.load").unwrap();

    assert_eq!(call.from_temp_index, Some(run_idx));
}

#[test]
fn test_associated_function_call() {
    let code = r#"
            struct Pipeline;

            impl Pipeline {
                fn new() -> Self {
                    Self
                }
            }

            fn build() {
                Pipeline::new();
            }
        "#;
    let (_symbols, call_sites) = parse_rust_source(PATH, code).unwrap();

    let call = call_sites.iter().find(|c| c.raw_name == "Pipeline::new").unwrap();
    assert_eq!(call.raw_name, "Pipeline::new");
}

#[test]
fn parser_qualified_names_follow_modules_and_stem() {
    let code = "mod outer {\n    mod inner {\n        pub struct Deep;\n        fn f() {}\n    }\n}\n";
    let (symbols, _) = parse_rust_source(PATH, code).unwrap();
    let names: Vec<(String, String)> =
        symbols.iter().map(|s| (s.name.clone(), s.qualified_name.clone())).collect();
    assert_eq!(
        names,
        vec![
            ("outer".to_string(), "lib::outer".to_string()),
            ("inner".to_string(), "lib::outer::inner".to_string()),
            ("Deep".to_string(), "lib::outer::inner::Deep".to_string()),
            ("f".to_string(), "lib::outer::inner::f".to_string()),
        ]
    );
    assert_eq!(symbols[0].kind, SymbolKind::Module);
    assert_eq!(symbols[0].range.start_line, 1);
    assert_eq!(symbols[0].range.start_col, 1);
    assert_eq!(symbols[0].file, PATH);
    assert_eq!(symbols[0].language.0, "rust");
}

#[test]
fn parser_impl_names_drop_generics() {
    let code = "impl<T> Wrapper<T> for Vec < T > {}\nimpl Display for Point {}\n";
    let (symbols, _) = parse_rust_source(PATH, code).unwrap();
    assert_eq!(symbols[0].kind, SymbolKind::Impl);
    assert_eq!(symbols[0].name, "Vec as Wrapper");
    assert_eq!(symbols[1].name, "Point as Display");
}

#[test]
fn parser_reports_syntax_errors() {
    let err = parse_rust_source(PATH, "fn broken( {").unwrap_err();
    assert_eq!(err, format!("Syntax error in {PATH}"));
}

#[test]
fn parser_calls_outside_functions_have_no_owner() {
    let code = "const X: u32 = compute();\n";
    let (symbols, call_sites) = parse_rust_source(PATH, code).unwrap();
    assert!(symbols.is_empty());
    assert_eq!(call_sites.len(), 1);
    assert_eq!(call_sites[0].raw_name, "compute");
    assert_eq!(call_sites[0].from_temp_index, None);
}

#[test]
fn clean_type_name_strips_generics_and_space() {
    assert_eq!(clean_type_name("  Vec<T> "), "Vec");
    assert_eq!(clean_type_name(" Point "), "Point");
    assert_eq!(clean_type_name("<T>"), "");
}

#[test]
fn syntax_nodes_quote_the_source() {
    let source = "fn a() { b(); }\n";
    let (has_error, nodes) = ctx_codegraph::rust_syntax::parse_rust_syntax(source).unwrap();
    assert!(!has_error);
    assert!(!nodes.is_empty());
    assert_eq!(nodes[0].3, source);
    for n in &nodes {
        assert!(source.contains(n.3.as_str()));
    }
}
