use nginx_lint::licenses::{render, Notice};

fn notices() -> Vec<Notice> {
    vec![
        Notice {
            component: "Lua 5.4".to_string(),
            scope: "the interpreter".to_string(),
            text: "Copyright (C) 1994-2024 Lua.org, PUC-Rio.\n\n".to_string(),
        },
        Notice {
            component: "musl".to_string(),
            scope: "the libc implementation".to_string(),
            text: "musl as a whole is licensed under the MIT license.\n".to_string(),
        },
    ]
}

#[test]
fn every_component_is_rendered_with_its_text() {
    let crates = "MIT License\n\nUsed by:\n  wit-component\n";
    let rendered = render(&notices(), crates);
    for notice in notices() {
        assert!(rendered.contains(&notice.component));
        assert!(rendered.contains(notice.text.trim_end()));
    }
    assert!(rendered.ends_with(crates));
    assert!(crates.split_whitespace().any(|word| word == "wit-component"));
}

#[test]
fn each_notice_stands_under_its_heading() {
    let rendered = render(&notices()[..1].to_vec(), "");
    let rule = "=".repeat(72);
    let expected = format!(
        "nginx-lint-plugin-sdk embeds a Lua runtime, compiled to WebAssembly, in this binary and in every plugin it builds. The runtime contains the following third-party code.\n\n\n{rule}\nLua 5.4\nthe interpreter\n{rule}\n\nCopyright (C) 1994-2024 Lua.org, PUC-Rio.\n\n\n{}\n\nThe Rust crates below are in the nginx-lint-plugin-sdk binary only; the plugins it builds contain none of them.\n\n",
        "#".repeat(72)
    );
    assert_eq!(rendered, expected);
}
