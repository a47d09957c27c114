use cleitonforge::source::strip_includes;

fn reference(source: &str) -> String {
    source
        .lines()
        .filter(|l| !l.trim_start().starts_with("include"))
        .collect::<Vec<_>>()
        .join("\n")
}

#[test]
fn include_lines_are_dropped() {
    let src = "OPENQASM 2.0;\ninclude \"qelib1.inc\";\nqreg q[1];\nh q[0];\n";
    assert_eq!(strip_includes(src), "OPENQASM 2.0;\nqreg q[1];\nh q[0];");
}

#[test]
fn indented_include_and_crlf_lines() {
    let src = "OPENQASM 3.0;\r\n   include \"stdgates.inc\";\r\nqubit[2] q;\r\n";
    assert_eq!(strip_includes(src), "OPENQASM 3.0;\nqubit[2] q;");
}

#[test]
fn sources_without_includes_keep_their_lines() {
    assert_eq!(strip_includes(""), "");
    assert_eq!(strip_includes("a\n\nb"), "a\n\nb");
    assert_eq!(strip_includes("a\r"), "a\r");
    assert_eq!(strip_includes("\n"), "");
    assert_eq!(strip_includes("include"), "");
    assert_eq!(strip_includes("x include"), "x include");
}

#[test]
fn stripping_agrees_with_line_filtering() {
    let cases = [
        "",
        "\n",
        "\n\n",
        "include a;\ninclude b;",
        "a\r\nb\r",
        "\tinclude x;\nkeep\n\ninclude\n",
        "includes;\n includ;\n",
        "\u{2003}include \"x\";\ny\r\n\r\nz",
    ];
    for c in cases {
        assert_eq!(strip_includes(c), reference(c), "input {c:?}");
    }
}
