use files_to_prompt::config::{get_config, mk_extension, ConfigError};
use files_to_prompt::paths::with_md;
use files_to_prompt::render::{ext_to_lang, line_numbers, store_as_default, store_as_markdown, store_block};

#[test]
fn language_table() {
    assert_eq!(ext_to_lang("py"), "python");
    assert_eq!(ext_to_lang("rs"), "rust");
    assert_eq!(ext_to_lang("js"), "javascript");
    assert_eq!(ext_to_lang("ts"), "typescript");
    assert_eq!(ext_to_lang("java"), "java");
    assert_eq!(ext_to_lang("c"), "c");
    assert_eq!(ext_to_lang("cpp"), "cpp");
    assert_eq!(ext_to_lang("sh"), "bash");
    assert_eq!(ext_to_lang("rb"), "ruby");
    assert_eq!(ext_to_lang("hs"), "haskell");
    assert_eq!(ext_to_lang("html"), "html");
    assert_eq!(ext_to_lang("css"), "css");
    assert_eq!(ext_to_lang("xml"), "xml");
    assert_eq!(ext_to_lang("json"), "json");
    assert_eq!(ext_to_lang("yaml"), "yaml");
    assert_eq!(ext_to_lang("yml"), "yaml");
    assert_eq!(ext_to_lang("xyz"), "");
    assert_eq!(ext_to_lang(""), "");
    assert_eq!(ext_to_lang("PY"), "");
}

#[test]
fn numbering_each_line() {
    let mut s = "alpha\nbeta\n".to_string();
    line_numbers(&mut s);
    assert_eq!(s, "1:alpha\n2:beta\n");

    let mut unterminated = "x\n\ny".to_string();
    line_numbers(&mut unterminated);
    assert_eq!(unterminated, "1:x\n2:\n3:y\n");

    let mut crlf = "a\r\nb\r\n".to_string();
    line_numbers(&mut crlf);
    assert_eq!(crlf, "1:a\n2:b\n");

    let mut lone_cr = "a\rb\nc\r".to_string();
    line_numbers(&mut lone_cr);
    assert_eq!(lone_cr, "1:a\rb\n2:c\r\n");

    let mut blank_crlf = "\r\n".to_string();
    line_numbers(&mut blank_crlf);
    assert_eq!(blank_crlf, "1:\n");

    let mut empty = String::new();
    line_numbers(&mut empty);
    assert_eq!(empty, "");

    let mut many = String::new();
    for i in 0..12 {
        many.push_str(&format!("l{}\n", i));
    }
    line_numbers(&mut many);
    assert!(many.starts_with("1:l0\n2:l1\n"));
    assert!(many.ends_with("10:l9\n11:l10\n12:l11\n"));
}

#[test]
fn plain_block() {
    let mut out = String::from("before\n");
    store_as_default(&mut out, "/p/a.py", "print(1)\n".to_string(), false);
    assert_eq!(out, "before\n/p/a.py\nprint(1)\n");

    let mut numbered = String::new();
    store_as_default(&mut numbered, "/p/a.py", "a\nb".to_string(), true);
    assert_eq!(numbered, "/p/a.py\n1:a\n2:b\n");
}

#[test]
fn markdown_block_fences() {
    let mut out = String::new();
    store_as_markdown(&mut out, "/p/a.rs", "fn main() {}\n".to_string(), false);
    assert_eq!(out, "/p/a.rs\n```rust\nfn main() {}\n```\n");

    let mut unknown = String::new();
    store_as_markdown(&mut unknown, "/p/data.xyz", "raw".to_string(), false);
    assert_eq!(unknown, "/p/data.xyz\n```\nraw\n```\n");

    let mut none = String::new();
    store_as_markdown(&mut none, "/p/Makefile", String::new(), false);
    assert_eq!(none, "/p/Makefile\n```\n```\n");

    let mut numbered = String::new();
    store_block(&mut numbered, "s.sh", "echo hi".to_string(), true, true);
    assert_eq!(numbered, "s.sh\n```bash\n1:echo hi\n```\n");

    let mut plain = String::new();
    store_block(&mut plain, "s.sh", "echo hi".to_string(), false, false);
    assert_eq!(plain, "s.sh\necho hi");
}

#[test]
fn markdown_output_name() {
    assert_eq!(with_md("output.txt"), "output.md");
    assert_eq!(with_md("out"), "out.md");
    assert_eq!(with_md("dir/out.tar.gz"), "dir/out.tar.md");
    assert_eq!(with_md(".hidden"), ".hidden.md");
    assert_eq!(with_md("out/"), "out.md");
    assert_eq!(with_md(""), "");
    assert_eq!(with_md(".."), "..");
    assert_eq!(with_md("a/."), "a.md");
    assert_eq!(with_md("d/out.txt/./"), "d/out.md");
    assert_eq!(with_md("."), ".");

    let md = get_config(vec!["a".to_string()], false, vec![], true, "output.txt".to_string(), None, false, 3)
        .unwrap();
    assert_eq!(mk_extension(&md), "output.md");
    let txt = get_config(vec!["a".to_string()], false, vec![], false, "output.txt".to_string(), None, false, 3)
        .unwrap();
    assert_eq!(mk_extension(&txt), "output.txt");
}

#[test]
fn config_needs_a_path() {
    let r = get_config(vec![], false, vec![], false, "output.txt".to_string(), None, false, 3);
    assert_eq!(r.unwrap_err(), ConfigError::NoPaths);
    let ok = get_config(vec!["x".to_string(), "y".to_string()], true, vec!["*.o".to_string()], true,
        "o.txt".to_string(), Some(vec!["c".to_string()]), true, 5).unwrap();
    assert_eq!(ok.paths, vec!["x".to_string(), "y".to_string()]);
    assert!(ok.include_hidden && ok.markdown && ok.line_numbers);
    assert_eq!(ok.ignore, vec!["*.o".to_string()]);
    assert_eq!(ok.output, "o.txt");
    assert_eq!(ok.extension, Some(vec!["c".to_string()]));
    assert_eq!(ok.depth, 5);
}
