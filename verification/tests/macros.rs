use external_tests::macros::attributes::attr_in;
use external_tests::macros::module::{
    expand_gateway, expand_module, Draft, Expansion, Item, Rejection,
};
use external_tests::macros::register::register_names;
use external_tests::macros::runner::{main_setup, setup_in, Setup};
use external_tests::macros::syntax::{FnParts, Module};
use external_tests::macros::{get_attr, main, test_gateway, test_module};
use proc_macro2::TokenStream;

fn stream(code: &str) -> TokenStream {
    code.parse().unwrap()
}

fn printed(code: &str) -> String {
    stream(code).to_string()
}

fn expanded(item: &str) -> Expansion {
    let m = test_module(&stream("\"tests.txt\""), stream(item)).ok().unwrap();
    assert_eq!(m.path, Some("tests.txt".to_string()));
    m.expansion.ok().unwrap()
}

#[test]
fn module_of_tests() {
    let x = expanded(
        "mod tests {
            #![allow(dead_code)]
            use super::kernel;
            #[doc = \"first\"] pub fn first() { let a = 1; assert_eq!(a, 1); }
            const IGNORED: u8 = 3;
            use core::fmt;
            fn second(x: u8) -> u8 { x + 1 }
            #[test_gateway] fn gateway() { loop {} }
        }",
    );
    assert_eq!(x.register, "first\nsecond\n");
    assert_eq!(register_names(&x.register), vec!["first", "second"]);
    assert_eq!(
        x.output.to_string(),
        printed(
            "mod test {
                use super::kernel;
                use core::fmt;
                #[no_mangle] #[inline(never)] #[link_section = \".test_first\"]
                #[doc = \"first\"] pub fn first() { let a = 1; assert_eq!(a, 1); }
                #[no_mangle] #[inline(never)] #[link_section = \".test_second\"]
                fn second(x: u8) -> u8 { x + 1 }
                #[no_mangle] #[inline(never)] #[link_section = \".test_gateway\"]
                #[test_gateway] fn gateway() { loop {} }
                pub fn runner() { first(); second(); gateway(); }
            }"
        )
    );
}

#[test]
fn module_without_items() {
    let x = expanded("mod tests {}");
    assert_eq!(x.register, "");
    assert_eq!(x.output.to_string(), printed("mod test { pub fn runner() { } }"));
}

#[test]
fn module_without_register() {
    let m = test_module(&stream(""), stream("mod test {}")).ok().unwrap();
    assert_eq!(m.path, None);
    let x = m.expansion.ok().unwrap();
    assert_eq!(x.output.to_string(), printed("mod test { pub fn runner() {} }"));
}

#[test]
fn modules_that_are_refused() {
    assert!(matches!(
        test_module(&stream("tests"), stream("mod a {}")),
        Err(Rejection::UnquotedPath)
    ));
    assert!(matches!(test_module(&stream("1"), stream("mod a {}")), Err(Rejection::UnquotedPath)));
    let m = test_module(&stream("\"p\""), stream("mod a;")).ok().unwrap();
    assert_eq!(m.path, Some("p".to_string()));
    assert!(matches!(m.expansion, Err(Rejection::NoBody)));
    let m = test_module(&stream("\"p\""), stream("fn a() {}")).ok().unwrap();
    match m.expansion {
        Err(Rejection::Syntax(t)) => assert!(t.to_string().contains("compile_error")),
        _ => panic!(),
    }
}

fn parts(name: &str) -> FnParts {
    FnParts {
        name: name.to_string(),
        ident: stream(name),
        attrs: stream("#[cold]"),
        vis: stream("pub"),
        sig: stream(&format!("fn {}()", name)),
        body: stream("x();"),
    }
}

#[test]
fn drafts_of_modules() {
    let mut d = Draft::new();
    d.add(Item::Import(stream("use a::b;")));
    d.add(Item::Function(parts("t")));
    d.add(Item::Other);
    d.add(Item::Function(parts("gateway")));
    assert_eq!(d.register, "t\n");
    assert_eq!(d.imports.to_string(), printed("use a::b;"));
    assert_eq!(d.calls.to_string(), printed("t(); gateway();"));
    let x = d.finish();
    assert_eq!(
        x.output.to_string(),
        printed(
            "mod test { use a::b;
            #[no_mangle] #[inline(never)] #[link_section = \".test_t\"] #[cold] pub fn t() { x(); }
            #[no_mangle] #[inline(never)] #[link_section = \".test_gateway\"] #[cold] pub fn gateway() { x(); }
            pub fn runner() { t(); gateway(); } }"
        )
    );
    let x = expand_module(Module::Inline(vec![stream("fn a() {}"), stream("struct B;")]));
    assert_eq!(x.ok().unwrap().register, "a\n");
    assert!(matches!(expand_module(Module::Declared), Err(Rejection::NoBody)));
    match expand_module(Module::Malformed(stream("e!{}"))) {
        Err(Rejection::Syntax(t)) => assert_eq!(t.to_string(), printed("e!{}")),
        _ => panic!(),
    }
}

#[test]
fn gateways() {
    let t = test_gateway(&stream("#[cold] pub fn gateway() -> ! { loop {} }")).ok().unwrap();
    assert_eq!(
        t.to_string(),
        printed("#[no_mangle] #[inline(never)] #[link_section = \".test_gateway\"] pub fn gateway() -> ! { loop {} }")
    );
    let twice = test_gateway(&t).ok().unwrap();
    assert_eq!(twice.to_string(), t.to_string());
    assert!(matches!(test_gateway(&stream("fn end() {}")), Err(Rejection::Misnamed)));
    match test_gateway(&stream("struct Gateway;")) {
        Err(Rejection::Syntax(t)) => assert!(t.to_string().contains("compile_error")),
        _ => panic!(),
    }
    assert!(matches!(expand_gateway(parts("end")), Err(Rejection::Misnamed)));
    assert_eq!(
        expand_gateway(parts("gateway")).ok().unwrap().to_string(),
        printed("#[no_mangle] #[inline(never)] #[link_section = \".test_gateway\"] pub fn gateway() { x(); }")
    );
}

#[test]
fn registers() {
    for text in ["", "a", "a\n", "a\nb\n", "a\r\nb", "\n\n", "a\r", "\r\n", "a\n\nb\r\r\n"] {
        let lines = std::io::BufRead::lines(text.as_bytes());
        let expected: Vec<String> = lines.map(|l| l.unwrap()).collect();
        assert_eq!(register_names(text), expected, "{:?}", text);
    }
    assert_eq!(register_names("one\ntwo\r\nthree\r"), vec!["one", "two", "three\r"]);
}

fn attr(text: &str, key: &str) -> Option<String> {
    match attr_in(text, key) {
        Ok(v) => v,
        Err(_) => panic!(),
    }
}

#[test]
fn attributes_in_text() {
    let text = " path = \"a b\" ,gdb=\"x\", arch = \"i386\" , gdb = \"y\"";
    assert_eq!(attr(text, "path"), Some("a b".to_string()));
    assert_eq!(attr(text, "gdb"), Some("y".to_string()));
    assert_eq!(attr(text, "arch"), Some("i386".to_string()));
    assert_eq!(attr(text, "port"), None);
    assert_eq!(attr("", "path"), None);
    assert_eq!(attr("path = x = \"v\"", "path"), Some("v".to_string()));
    for bad in ["path", "path = a", "path = \"a", "path = \"a,b\"", "path = \"a=b\"", "path = \"", "path = 1, path = \"a\""] {
        match attr_in(bad, "path") {
            Err(Rejection::Unquoted(k)) => assert_eq!(k, "path"),
            _ => panic!("{}", bad),
        }
    }
}

#[test]
fn attributes_in_any_order() {
    let one = stream("k1 = \"v1\", k2 = \"v2\", k3 = \"v 3\"");
    let two = stream("k3 = \"v 3\", k1 = \"v1\", k2 = \"v2\"");
    for (key, value) in [("k1", "v1"), ("k2", "v2"), ("k3", "v 3")] {
        assert_eq!(get_attr(&one, key).ok().unwrap(), Some(value.to_string()));
        assert_eq!(get_attr(&two, key).ok().unwrap(), Some(value.to_string()));
    }
}

#[test]
fn attributes_in_tokens() {
    let args = stream("symfile = \"k.elf\", port = \"localhost:1\"");
    assert_eq!(get_attr(&args, "symfile").ok().unwrap(), Some("k.elf".to_string()));
    assert_eq!(get_attr(&args, "port").ok().unwrap(), Some("localhost:1".to_string()));
    assert_eq!(get_attr(&args, "gdb").ok().unwrap(), None);
    assert!(matches!(get_attr(&stream("port = 1"), "port"), Err(Rejection::Unquoted(_))));
}

fn missing(text: &str) -> String {
    match setup_in(text) {
        Err(Rejection::Missing(k)) => k,
        Err(Rejection::Unquoted(k)) => format!("unquoted {}", k),
        _ => panic!(),
    }
}

#[test]
fn setups() {
    assert_eq!(missing(""), "symfile");
    assert_eq!(missing("symfile = \"s\""), "bootfile");
    assert_eq!(missing("symfile = \"s\", bootfile = \"b\""), "path");
    assert_eq!(missing("symfile = s, path = p"), "unquoted symfile");
    assert_eq!(missing("symfile = \"s\", bootfile = \"b\", gdb = g, path = p"), "unquoted gdb");
    assert_eq!(missing("symfile = \"s\", bootfile = \"b\", arch = g"), "unquoted arch");
    assert_eq!(missing("symfile = \"s\", bootfile = \"b\", port = g"), "unquoted port");
    let s = main_setup(&stream("symfile = \"s\", bootfile = \"b\", path = \"p\", arch = \"a\""));
    let s = s.ok().unwrap();
    assert_eq!(s.symbol_file, "s");
    assert_eq!(s.bootable_file, "b");
    assert_eq!(s.register, "p");
    assert_eq!(s.debugger, None);
    assert_eq!(s.arch, Some("a".to_string()));
    assert_eq!(s.port, None);
}

#[test]
fn runner_with_defaults() {
    let s = Setup {
        symbol_file: "k \"1\".elf".to_string(),
        bootable_file: "boot.img".to_string(),
        debugger: None,
        arch: None,
        port: None,
        register: "p".to_string(),
    };
    assert_eq!(
        main(&s, "").to_string(),
        printed(
            "use external_tests::tokio;
            #[external_tests::tokio::test]
            async fn gdb_runner() {
                env_logger::init();
                use external_tests::instances;
                let mut runner = instances::Debugger::new(\"gdb\", vec![\"k \\\"1\\\".elf\".to_string()], \"boot.img\");
                runner.before(\"target remote localhost:1234\");
                runner.register_gateway(\"gateway\");
                runner.register_panic(\"main::panic\");
                let recap = runner.test().await.unwrap().unwrap();
                dbg!(recap);
            }"
        )
    );
}

#[test]
fn runner_of_a_module() {
    let x = expanded("mod t { fn one() {} fn two() {} fn gateway() {} }");
    let s = Setup {
        symbol_file: "k".to_string(),
        bootable_file: "b".to_string(),
        debugger: Some("my-gdb".to_string()),
        arch: Some("i386:x86-64".to_string()),
        port: Some("host:9".to_string()),
        register: "p".to_string(),
    };
    assert_eq!(
        main(&s, &x.register).to_string(),
        printed(
            "use external_tests::tokio;
            #[external_tests::tokio::test]
            async fn gdb_runner() {
                env_logger::init();
                use external_tests::instances;
                let mut runner = instances::Debugger::new(\"my-gdb\", vec![\"k\".to_string()], \"b\");
                runner.before(\"set architecture i386:x86-64\");
                runner.before(\"target remote host:9\");
                runner.register_gateway(\"gateway\");
                runner.register_panic(\"main::panic\");
                runner.register_test(\"one\");
                runner.register_test(\"two\");
                let recap = runner.test().await.unwrap().unwrap();
                dbg!(recap);
            }"
        )
    );
}
