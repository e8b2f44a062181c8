use bashrs::macros::elevated::{
    expand_elevated, reexec, try_handle, ElementType, ElevatedError, Input, ParamType, Passing, Sent,
};
use bashrs::macros::{
    capitalise, category, expand, lookup_fn, parts_of_name, take_command_attrs, to_kebab_case,
    to_pascal_case, ArgsError, Attr, CategoryArgs, CategoryError, ExpandError, Function, ModuleItem,
    Pair, PairValue, Param,
};

fn attr(path: &str, args: Option<&str>) -> Attr {
    Attr { path: Some(path.to_string()), args: args.map(str::to_string) }
}

fn function(name: &str, attrs: Vec<Attr>) -> ModuleItem {
    ModuleItem::Function(Function {
        name: name.to_string(),
        params: vec![Param::Typed("XArgs".to_string())],
        attrs,
    })
}

#[test]
fn names_change_case() {
    assert_eq!(to_pascal_case("hmerge_imgs"), "HmergeImgs");
    assert_eq!(to_pascal_case("__a__b"), "AB");
    assert_eq!(to_pascal_case("ßx"), "SSx");
    assert_eq!(to_kebab_case("gg_elevated_rescan"), "gg-elevated-rescan");
    assert_eq!(parts_of_name("a__b"), ["a", "b"]);
    assert_eq!(capitalise(&parts_of_name("ab_c"), &parts_of_name("X_Y")), "XbY");
}

fn pair(key: &str, value: PairValue) -> Pair {
    Pair { key: key.to_string(), value }
}

#[test]
fn the_arguments_of_a_category_are_read_or_refused() {
    let command = || pair("command", PairValue::Path(Some("C".to_string())));
    let prefix = || pair("prefix", PairValue::Text("p_".to_string()));
    let args = CategoryArgs::parse(&vec![command(), prefix()]).ok().unwrap();
    assert_eq!((args.command.as_str(), args.prefix.as_str()), ("C", "p_"));
    let fails = |pairs: Vec<Pair>| CategoryArgs::parse(&pairs).err().unwrap();
    assert!(fails(vec![prefix()]) == ArgsError::NoCommand);
    assert!(fails(vec![pair("command", PairValue::Path(None)), prefix()]) == ArgsError::NoCommand);
    assert!(fails(vec![command()]) == ArgsError::NoPrefix);
    assert!(fails(vec![pair("command", PairValue::Other)]) == ArgsError::CommandIsNoIdentifier(0));
    assert!(fails(vec![command(), pair("prefix", PairValue::Other)]) == ArgsError::PrefixIsNoText(1));
    assert!(fails(vec![pair("", PairValue::Other)]) == ArgsError::UnknownKey(0));
    assert_eq!(ArgsError::NoPrefix.message(), "missing `prefix = \"...\"`");
}

#[test]
fn helper_attributes_are_consumed_and_the_rest_stays() {
    let attrs = vec![
        attr("doc", None),
        attr("prefixed", None),
        attr("unprefixed", None),
        attr("after", Some("\"exec bash\"")),
        attr("piped", Some("\"history\"")),
        attr("alias", Some("\"a\\n\"")),
        attr("alias", Some("r#\"b\"#")),
        attr("trailing_newline", None),
        attr("allow", Some("dead_code")),
        Attr { path: None, args: None },
    ];
    let taken = take_command_attrs(&attrs).ok().unwrap();
    assert_eq!(taken.docs, [0]);
    assert_eq!(taken.kept, [0, 8, 9]);
    assert!(taken.prefixed && taken.unprefixed && taken.trailing_newline);
    assert_eq!(taken.after.as_deref(), Some("exec bash"));
    assert_eq!(taken.piped.as_deref(), Some("history"));
    assert_eq!(taken.name, None);
    assert_eq!(taken.aliases, ["a\n", "b"]);
    assert_eq!(take_command_attrs(&vec![attr("doc", None), attr("name", Some("42"))]).err(), Some(1));
    assert_eq!(take_command_attrs(&vec![attr("after", None)]).err(), Some(0));
}

#[test]
fn a_text_that_nests_too_deep_holds_no_literal() {
    let value = |tokens: String| {
        take_command_attrs(&vec![attr("name", Some(&tokens))]).ok().and_then(|taken| taken.name)
    };
    let deep = "(".repeat(60_000) + &")".repeat(60_000);
    assert_eq!(value(deep), None);
    let brackets = "(".repeat(600);
    assert_eq!(value(format!("\"{brackets}\"")), Some(brackets.clone()), "no bracket nests in quotes");
    assert_eq!(value(format!("\"a\\\"{brackets}\"")), Some(format!("a\"{brackets}")));
    assert_eq!(value("r\"((\"".to_string()), Some("((".to_string()));
    assert_eq!(value("\"a\" \"b\"".to_string()), None);
}

#[test]
fn plain_functions_become_commands() {
    let items = Some(vec![
        ModuleItem::Other,
        function("conv", vec![attr("prefixed", None), attr("unprefixed", None), attr("alias", Some("\"c\""))]),
        function("_helper", vec![]),
        function("bare", vec![attr("unprefixed", None), attr("after", Some("\"exec bash\""))]),
        function("loud", vec![attr("name", Some("\"LOUD\"")), attr("piped", Some("\"history\""))]),
        function("plain", vec![attr("trailing_newline", None)]),
    ]);
    let out = expand("m_", &items).ok().unwrap();
    let names: Vec<(usize, &str, &str)> =
        out.commands.iter().map(|c| (c.item, c.variant.as_str(), c.name.as_str())).collect();
    assert_eq!(
        names,
        [(1, "Conv", "m_conv"), (3, "Bare", "bare"), (4, "Loud", "LOUD"), (5, "Plain", "m_plain")]
    );
    assert_eq!(out.commands[0].aliases, ["conv", "c"]);
    assert!(out.commands[1].aliases.is_empty());
    assert!(out.commands[3].trailing_newline);
    assert_eq!(lookup_fn(&out.suffixes, "bare").as_deref(), Some("exec bash"));
    assert_eq!(lookup_fn(&out.suffixes, "m_conv"), None);
    assert_eq!(lookup_fn(&out.prefixes, "LOUD").as_deref(), Some("history"));
}

#[test]
fn a_module_that_cannot_be_expanded_says_why() {
    assert!(expand("m_", &None).err() == Some(ExpandError::NotInline));
    let with = |params: Vec<Param>, attrs: Vec<Attr>| {
        expand(
            "m_",
            &Some(vec![ModuleItem::Function(Function { name: "f".to_string(), params, attrs })]),
        )
        .err()
    };
    assert!(with(vec![Param::Receiver], vec![]) == Some(ExpandError::TakesSelf(0)));
    assert!(with(vec![], vec![]) == Some(ExpandError::NotOneArgument(0)));
    let two = vec![Param::Typed("A".to_string()), Param::Typed("B".to_string())];
    assert!(with(two, vec![]) == Some(ExpandError::NotOneArgument(0)));
    let one = || vec![Param::Typed("A".to_string())];
    assert!(with(one(), vec![attr("name", None)]) == Some(ExpandError::NoLiteral(0, 0)));
    assert_eq!(
        ExpandError::NotOneArgument(0).message("f"),
        "command `f` must take exactly one argument: its `#[derive(Args)]` struct"
    );
    let pairs = vec![
        pair("command", PairValue::Path(Some("C".to_string()))),
        pair("prefix", PairValue::Text("m_".to_string())),
    ];
    let made = category(&pairs, &Some(vec![function("x", vec![])])).ok().unwrap();
    assert_eq!((made.command.as_str(), made.expansion.commands.len()), ("C", 1));
    assert!(category(&pairs, &None).err() == Some(CategoryError::Module(ExpandError::NotInline)));
    assert!(category(&vec![], &None).err() == Some(CategoryError::Args(ArgsError::NoCommand)));
}

fn ty(ident: &str, text: &str, element: Option<(&str, &str)>) -> ParamType {
    ParamType {
        ident: Some(ident.to_string()),
        text: text.to_string(),
        element: element.map(|(ident, text)| ElementType {
            ident: Some(ident.to_string()),
            text: text.to_string(),
        }),
    }
}

fn named(name: &str, ty: ParamType) -> Input {
    Input::Named(name.to_string(), ty)
}

#[test]
fn each_parameter_becomes_a_flag() {
    let inputs = vec![
        named("paths", ty("Vec", "Vec<PathBuf>", Some(("PathBuf", "PathBuf")))),
        named("context_lines", ty("usize", "usize", None)),
        named("delve", ty("bool", "bool", None)),
        named("save", ty("Option", "Option<PathBuf>", Some(("PathBuf", "PathBuf")))),
        named("limit", ty("Option", "Option<u64>", Some(("u64", "u64")))),
        named("label", ty("String", "String", None)),
    ];
    let out = expand_elevated("gg_elevated_rescan", &inputs).ok().unwrap();
    assert_eq!(
        (out.command.as_str(), out.args_type.as_str(), out.marker.as_str()),
        ("GgElevatedRescan", "GgElevatedRescanArgs", "gg-elevated-rescan")
    );
    let shape: Vec<(&str, &str, bool)> =
        out.forwards.iter().map(|f| (f.flag.as_str(), f.param.as_str(), f.to_text)).collect();
    assert_eq!(
        shape,
        [
            ("--paths", "&[PathBuf]", false),
            ("--context-lines", "usize", true),
            ("--delve", "bool", false),
            ("--save", "::core::option::Option<&::std::path::Path>", false),
            ("--limit", "::core::option::Option<u64>", true),
            ("--label", "&str", false),
        ]
    );
    assert!(out.forwards[0].passing == Passing::Repeated && out.forwards[2].passing == Passing::Switch);
    assert!(out.forwards[3].passing == Passing::Optional && out.forwards[5].passing == Passing::Single);
    assert!(expand_elevated("f", &vec![Input::Receiver]).err() == Some(ElevatedError::TakesSelf(0)));
    assert!(expand_elevated("f", &vec![Input::Pattern]).err() == Some(ElevatedError::NotAnIdentifier(0)));
    assert_eq!(ElevatedError::TakesSelf(0).message(), "an #[elevated] function cannot take `self`");
}

#[test]
fn absent_values_put_nothing_on_the_wire() {
    let flags: Vec<String> = ["--p", "--d", "--s", "--l"].iter().map(|s| s.to_string()).collect();
    let some = vec![
        Sent::Repeated(vec!["a".to_string(), "b".to_string()]),
        Sent::Switch(true),
        Sent::Optional(Some("x".to_string())),
        Sent::Single("y".to_string()),
    ];
    let argv = reexec("/bin/me", "mark", &flags, &some);
    assert_eq!(argv, ["/bin/me", "mark", "--p", "a", "--p", "b", "--d", "--s", "x", "--l", "y"]);
    assert!(try_handle("mark", &argv));
    assert!(!try_handle("mark", &vec!["mark".to_string()]));
    let none = vec![
        Sent::Repeated(vec![]),
        Sent::Switch(false),
        Sent::Optional(None),
        Sent::Single(String::new()),
    ];
    assert_eq!(reexec("/bin/me", "mark", &flags, &none), ["/bin/me", "mark", "--l", ""]);
}
