use constgen::constants::{resolve_constants, Constant, ResolveError};
use constgen::format_value::{Format, IntegerFormat, Radix};
use constgen::options::{CodegenOptions, LangOptions, LangTypeOptions, Options};
use constgen::template::{contains_parameter, replace_parameters, uses_only_known, Params};
use constgen::value::{Context, FloatArith, Primitive};

struct F64;

impl FloatArith for F64 {
    fn parse_decimal(&self, literal: &str) -> u64 {
        literal.parse::<f64>().unwrap().to_bits()
    }

    fn from_integer(&self, i: i128) -> u64 {
        (i as f64).to_bits()
    }

    fn sum(&self, a: u64, b: u64) -> u64 {
        (f64::from_bits(a) + f64::from_bits(b)).to_bits()
    }

    fn product(&self, a: u64, b: u64) -> u64 {
        (f64::from_bits(a) * f64::from_bits(b)).to_bits()
    }

    fn fract(&self, a: u64) -> u64 {
        f64::from_bits(a).fract().to_bits()
    }

    fn to_text(&self, a: u64) -> String {
        f64::from_bits(a).to_string()
    }

    fn float_eq(&self, a: u64, b: u64) -> bool {
        f64::from_bits(a) == f64::from_bits(b)
    }

    fn equals_integer(&self, a: u64, i: i128) -> bool {
        let f = f64::from_bits(a);
        // 2^127 is the first double past i128::MAX; `as` would saturate onto it.
        f.trunc() == f && i128::MIN as f64 <= f && f < -(i128::MIN as f64) && (f as i128) == i
    }
}

fn rust_options() -> LangOptions {
    LangOptions {
        file_ext: ".rs".to_owned(),
        template: "pub const $name: $type = $value;".to_owned(),
        import: Some("use $import;".to_owned()),
        comment: Some("// $comment".to_owned()),
        intro: Some("// begin $$".to_owned()),
        outro: None,
        format: Format::default(),
        formatter: None,
        types: vec![
            (
                "u32".to_owned(),
                LangTypeOptions {
                    name: None,
                    value_prefix: String::new(),
                    value_suffix: "u32".to_owned(),
                    format: Format {
                        boolean: None,
                        integer: Some(IntegerFormat {
                            radix: Radix::Hexadecimal,
                            ..Default::default()
                        }),
                    },
                    import: vec!["std::num".to_owned()],
                },
            ),
            (
                "bool".to_owned(),
                LangTypeOptions {
                    name: Some("bool".to_owned()),
                    value_prefix: String::new(),
                    value_suffix: String::new(),
                    format: Format::default(),
                    import: Vec::new(),
                },
            ),
        ],
    }
}

fn resolved(name: &str, type_: Option<&str>, value: &str, ctx: &Context) -> Constant {
    let mut c = Constant::new(name.to_owned(), type_.map(|t| t.to_owned()), value.to_owned());
    c.resolve_value(ctx, &F64).unwrap();
    c
}

#[test]
fn template_parameters_are_found() {
    assert!(contains_parameter("let $name = $value;", "$value"));
    assert!(!contains_parameter("let $name = $values;", "$value"));
    assert!(!contains_parameter("cost: $$type", "$type"));
    assert!(!contains_parameter("a $$ b", "$$"));
}

#[test]
fn template_parameters_are_replaced() {
    let mut p = Params::new();
    p.insert("$name", "WIDTH".to_owned());
    p.insert("$value", "4".to_owned());
    assert_eq!(replace_parameters("const $name = $value; // $$5", &p), "const WIDTH = 4; // $5");
    assert!(uses_only_known("$name=$value", &p));
    assert!(!uses_only_known("$name: $type", &p));
    assert_eq!(p.get("$name").map(|s| s.as_str()), Some("WIDTH"));
}

#[test]
fn constant_lines_use_type_formats() {
    let opts = rust_options();
    assert!(opts.check());
    let mut ctx = Context::new();
    let c = resolved("MASK", Some("u32"), "(mul 16 16)", &ctx);
    ctx.insert(c.name.clone(), c.value());
    assert_eq!(c.value(), Primitive::Integer(256));
    assert_eq!(
        opts.format_constant(&c, &F64),
        Some("pub const MASK: u32 = 0x100u32;".to_owned())
    );
    let d = resolved("ON", Some("bool"), "(not false)", &ctx);
    assert_eq!(opts.format_constant(&d, &F64), Some("pub const ON: bool = true;".to_owned()));
    let e = resolved("UNTYPED", None, "MASK", &ctx);
    assert_eq!(e.value(), Primitive::Integer(256));
    assert_eq!(opts.format_constant(&e, &F64), None);
    assert_eq!(opts.constant_imports(&c), vec!["std::num".to_owned()]);
    assert!(opts.constant_imports(&d).is_empty());
}

#[test]
fn failed_resolution_keeps_the_constant() {
    let mut c = Constant::new("BAD".to_owned(), None, "(add 1 nothing)".to_owned());
    let e = c.resolve_value(&Context::new(), &F64).unwrap_err();
    assert_eq!(e.location.start, 7);
    assert!(c.resolved_value.is_none());
}

#[test]
fn block_lines() {
    let opts = rust_options();
    assert_eq!(opts.format_import("std::fmt"), Some("use std::fmt;".to_owned()));
    assert_eq!(opts.format_comment("Constants"), "// Constants\n");
    assert_eq!(opts.format_intro(), "// begin $\n");
    assert_eq!(opts.format_outro(), "");
    let mut bare = rust_options();
    bare.import = None;
    bare.comment = None;
    assert_eq!(bare.format_import("std::fmt"), None);
    assert_eq!(bare.format_comment("Constants"), "");
}

#[test]
fn untyped_templates_ignore_types() {
    let mut opts = rust_options();
    opts.template = "$name = $value".to_owned();
    let c = resolved("X", Some("u32"), "10", &Context::new());
    assert_eq!(opts.format_constant(&c, &F64), Some("X = 0xa".to_owned()));
}

#[test]
fn enabled_languages_in_order() {
    let options = Options {
        codegen: CodegenOptions {
            enabled: vec!["rust".to_owned(), "c".to_owned()],
            comment_sections: false,
        },
        lang: vec![
            ("c".to_owned(), rust_options()),
            ("python".to_owned(), rust_options()),
            ("rust".to_owned(), rust_options()),
        ],
    };
    let names: Vec<&String> = options.languages().into_iter().map(|(n, _)| n).collect();
    assert_eq!(names, vec!["c", "rust"]);
}

#[test]
fn each_template_is_checked_on_its_own() {
    let mut opts = rust_options();
    opts.comment = Some("// $unknown".to_owned());
    assert!(!opts.comment_ok());
    assert!(!opts.check());
    assert!(opts.import_ok() && opts.template_ok() && opts.intro_ok() && opts.outro_ok());
    assert_eq!(opts.format_import("std::fmt"), Some("use std::fmt;".to_owned()));
    let c = resolved("N", Some("u32"), "0b1_0000", &Context::new());
    assert_eq!(opts.format_constant(&c, &F64), Some("pub const N: u32 = 0x10u32;".to_owned()));
}

#[test]
fn constants_resolve_in_order() {
    let list = vec![
        Constant::new("A".to_owned(), None, "2".to_owned()),
        Constant::new("B".to_owned(), None, "(mul A 3)".to_owned()),
    ];
    let (cs, ctx) = resolve_constants(&list, &F64).unwrap();
    assert_eq!(cs[1].value(), Primitive::Integer(6));
    assert_eq!(ctx.get(&"B".to_owned()), Some(Primitive::Integer(6)));
    let dup = vec![
        Constant::new("A".to_owned(), None, "2".to_owned()),
        Constant::new("A".to_owned(), None, "3".to_owned()),
    ];
    assert_eq!(resolve_constants(&dup, &F64).unwrap_err(), ResolveError::DuplicateConstant("A".to_owned()));
    let forward = vec![
        Constant::new("B".to_owned(), None, "A".to_owned()),
        Constant::new("A".to_owned(), None, "2".to_owned()),
    ];
    match resolve_constants(&forward, &F64).unwrap_err() {
        ResolveError::Evaluation(name, e) => {
            assert_eq!(name, "B");
            assert_eq!(e.location.start, 0);
        },
        other => panic!("unexpected {:?}", other),
    }
}

#[test]
fn names_are_unique() {
    let mut opts = rust_options();
    assert!(opts.types_ok());
    let extra = LangTypeOptions {
        name: None,
        value_prefix: String::new(),
        value_suffix: String::new(),
        format: Format::default(),
        import: Vec::new(),
    };
    opts.types.push(("u32".to_owned(), extra));
    assert!(!opts.types_ok());
    assert!(!opts.check());
    let options = Options {
        codegen: CodegenOptions { enabled: Vec::new(), comment_sections: false },
        lang: vec![("c".to_owned(), rust_options()), ("c".to_owned(), rust_options())],
    };
    assert!(!options.names_ok());
}
