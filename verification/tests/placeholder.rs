use inqjet::placeholder::{
    extra_trait_bound, format_trait_from_spec, parse_format_placeholders, plan_hot_log, FormatTrait,
};

/// Parse and extract just the FormatTrait per placeholder.
fn parse_traits(fmt: &str) -> Vec<FormatTrait> {
    parse_format_placeholders(fmt)
        .unwrap()
        .iter()
        .map(|p| p.format_trait)
        .collect()
}

#[test]
fn simple_positional() {
    assert_eq!(
        parse_traits("hello {} world {}"),
        vec![FormatTrait::Display, FormatTrait::Display]
    );
}

#[test]
fn debug_format() {
    assert_eq!(
        parse_traits("{:?} and {:#?}"),
        vec![FormatTrait::Debug, FormatTrait::Debug]
    );
}

#[test]
fn mixed_display_debug() {
    assert_eq!(
        parse_traits("id {} state {:?} price {:.2}"),
        vec![
            FormatTrait::Display,
            FormatTrait::Debug,
            FormatTrait::Display
        ]
    );
}

#[test]
fn escaped_braces() {
    assert_eq!(
        parse_traits("literal {{}} and {}"),
        vec![FormatTrait::Display]
    );
}

#[test]
fn no_args() {
    assert!(parse_traits("static message").is_empty());
}

#[test]
fn reject_explicit_index() {
    assert!(parse_format_placeholders("{0} and {1}").is_err());
}

#[test]
fn reject_named_arg() {
    assert!(parse_format_placeholders("{name}").is_err());
}

#[test]
fn display_spec_variants() {
    let result = parse_traits("{:>10} {:.<5} {:.2}");
    assert!(result.iter().all(|t| *t == FormatTrait::Display));
}

#[test]
fn hex_octal_binary() {
    assert_eq!(
        parse_traits("{:x} {:X} {:o} {:b}"),
        vec![
            FormatTrait::LowerHex,
            FormatTrait::UpperHex,
            FormatTrait::Octal,
            FormatTrait::Binary,
        ]
    );
}

#[test]
fn scientific_and_pointer() {
    assert_eq!(
        parse_traits("{:e} {:E} {:p}"),
        vec![
            FormatTrait::LowerExp,
            FormatTrait::UpperExp,
            FormatTrait::Pointer,
        ]
    );
}

#[test]
fn hex_with_prefix_and_width() {
    assert_eq!(parse_traits("{:#010x}"), vec![FormatTrait::LowerHex]);
}

#[test]
fn inner_content_preserved() {
    let result = parse_format_placeholders("{} {:?} {:.2} {:#010x}").unwrap();
    assert_eq!(result[0].inner, "");
    assert_eq!(result[1].inner, ":?");
    assert_eq!(result[2].inner, ":.2");
    assert_eq!(result[3].inner, ":#010x");
}

#[test]
fn rejections_say_why() {
    assert_eq!(
        parse_format_placeholders("{0:x}").unwrap_err(),
        "explicit indices ({0:x}) not supported in hot-path logging; use positional arguments"
    );
    assert_eq!(
        parse_format_placeholders("{} {name:?}").unwrap_err(),
        "named arguments ({name:?}) not supported in hot-path logging; use positional arguments"
    );
}

#[test]
fn unclosed_placeholder_runs_to_the_end() {
    let result = parse_format_placeholders("tail {:x").unwrap();
    assert_eq!(result.len(), 1);
    assert_eq!(result[0].inner, ":x");
    assert_eq!(result[0].format_trait, FormatTrait::LowerHex);
}

#[test]
fn lone_closing_brace_is_text() {
    assert!(parse_format_placeholders("a } b").unwrap().is_empty());
}

#[test]
fn escaped_text_holds_no_placeholder() {
    assert_eq!(
        parse_traits("{{a}} {{{{}}}} {:?}"),
        vec![FormatTrait::Debug]
    );
}

#[test]
fn closure_format_asks_for_the_same_trait() {
    let plans = plan_hot_log("order {} flags {:#x}", 2).unwrap();
    assert_eq!(plans[0].closure_fmt, "{}");
    assert_eq!(plans[1].closure_fmt, "{:#x}");
    assert_eq!(
        parse_traits(&plans[1].closure_fmt),
        vec![FormatTrait::LowerHex]
    );
}

#[test]
fn plan_names_each_argument() {
    let plans = plan_hot_log("{} {:?} {:e}", 3).unwrap();
    assert_eq!(plans.len(), 3);
    assert_eq!(plans[0].value, "__v0");
    assert_eq!(plans[1].size, "__s1");
    assert_eq!(plans[2].witness, "__w2");
    assert_eq!(plans[0].decoded, "__d0");
    assert_eq!(plans[1].type_param, "__T1");
    assert_eq!(plans[0].bound, Some("::std::fmt::Display"));
    assert_eq!(plans[1].bound, None);
    assert_eq!(plans[2].bound, Some("::std::fmt::LowerExp"));
}

#[test]
fn plan_counts_arguments() {
    assert_eq!(
        plan_hot_log("{} and {}", 1).err().unwrap(),
        "format string expects 2 arguments but 1 were provided"
    );
    assert_eq!(
        plan_hot_log("none", 12).err().unwrap(),
        "format string expects 0 arguments but 12 were provided"
    );
    assert_eq!(
        plan_hot_log("{x}", 1).err().unwrap(),
        "named arguments ({x}) not supported in hot-path logging; use positional arguments"
    );
}

#[test]
fn trait_of_a_spec() {
    assert_eq!(format_trait_from_spec(""), FormatTrait::Display);
    assert_eq!(format_trait_from_spec(":08b"), FormatTrait::Binary);
    assert_eq!(extra_trait_bound(FormatTrait::Debug), None);
    assert_eq!(
        extra_trait_bound(FormatTrait::Pointer),
        Some("::std::fmt::Pointer")
    );
}
