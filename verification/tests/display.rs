use lsd::color::Colors;
use lsd::display::{get_output, PaddingRules};
use lsd::meta::DisplayOption;
use lsd::display::{display_folder_path, should_display_folder_path, tree, try_tree, TreeColumnsFallback};
use lsd::flags::blocks::Block;
use lsd::flags::max_shown::MaxShown;
use lsd::flags::tree_columns::TreeColumns;
use lsd::flags::{Display, Flags, HyperlinkOption, Layout};
use lsd::listing::{grid, try_grid};
use lsd::meta::{FileType, Meta, Size};
use lsd::width::{get_visible_width, try_get_visible_width};

const ROOT: &str = "/tmp/lsd-test";

fn file(name: &str) -> Meta {
    let mut m = Meta::new(name.to_string(), format!("{ROOT}/{name}"), FileType::File);
    m.file_type_render = ".".to_string();
    m
}

fn plain(name: &str) -> Meta {
    Meta::new(name.to_string(), name.to_string(), FileType::File)
}

fn dir(name: &str, content: Vec<Meta>) -> Meta {
    let mut m = Meta::new(name.to_string(), format!("{ROOT}/{name}"), FileType::Directory);
    m.file_type_render = "d".to_string();
    m.content = Some(content);
    m
}

fn flags(blocks: Vec<Block>, layout: Layout) -> Flags {
    Flags {
        blocks,
        layout,
        display: Display::VisibleOnly,
        header: false,
        hyperlink: HyperlinkOption::Never,
        no_symlink: false,
        dereference: false,
        max_shown: MaxShown::Unset,
        tree_columns: TreeColumns(false),
        tree_filter: false,
    }
}

fn tree_flags() -> Flags {
    flags(vec![Block::Name], Layout::Tree)
}

fn long_blocks() -> Vec<Block> {
    vec![
        Block::Permission,
        Block::User,
        Block::Group,
        Block::Size,
        Block::Date,
        Block::Name,
    ]
}

fn render_tree(metas: &Vec<Meta>, flags: &Flags) -> String {
    tree(metas, flags, &Colors::no_color(), None).output
}

fn quoted(name: &str) -> String {
    if name.contains(' ') {
        format!("'{name}'")
    } else {
        name.to_string()
    }
}

#[test]
fn test_display_get_visible_width_without_icons() {
    for (s, l) in [
        ("Ｈｅｌｌｏ,ｗｏｒｌｄ!", 22),
        ("ASCII1234-_", 11),
        ("制作样本。", 10),
        ("日本語", 6),
        ("샘플은 무료로 드리겠습니다", 28),
        ("👩🐩", 4),
        ("🔬", 2),
    ] {
        let output = quoted(s);
        assert_eq!(get_visible_width(&output, false), l);
    }
}

#[test]
fn test_display_get_visible_width_with_icons() {
    for (s, l) in [
        ("Ｈｅｌｌｏ,ｗｏｒｌｄ!", 24),
        ("ASCII1234-_", 13),
        ("File with space", 19),
        ("制作样本。", 12),
        ("日本語", 8),
        ("샘플은 무료로 드리겠습니다", 30),
        ("👩🐩", 6),
        ("🔬", 4),
    ] {
        let output = format!("\u{f016} {}", quoted(s));
        assert_eq!(get_visible_width(&output, false), l);
    }
}

#[test]
fn test_display_get_visible_width_with_colors() {
    for (s, l) in [
        ("Ｈｅｌｌｏ,ｗｏｒｌｄ!", 22),
        ("ASCII1234-_", 11),
        ("File with space", 17),
        ("制作样本。", 10),
        ("日本語", 6),
        ("샘플은 무료로 드리겠습니다", 28),
        ("👩🐩", 4),
        ("🔬", 2),
    ] {
        let output = format!("\u{1b}[38;5;184m{}\u{1b}[39m", quoted(s));
        assert!(output.starts_with("\u{1b}[38;5;"), "{output:?} should start with color");
        assert!(output.ends_with("[39m"), "reset foreground color");
        assert_eq!(get_visible_width(&output, false), l, "visible match");
    }
}

#[test]
fn test_display_get_visible_width_without_colors() {
    for (s, l) in [
        ("Ｈｅｌｌｏ,ｗｏｒｌｄ!", 22),
        ("ASCII1234-_", 11),
        ("File with space", 17),
        ("制作样本。", 10),
        ("日本語", 6),
        ("샘플은 무료로 드리겠습니다", 28),
        ("👩🐩", 4),
        ("🔬", 2),
    ] {
        let output = quoted(s);
        assert!(!output.starts_with("\u{1b}[38;5;"));
        assert!(!output.ends_with("[0m"));
        assert_eq!(get_visible_width(&output, false), l);
    }
}

#[test]
fn test_display_get_visible_width_hypelink_simple() {
    for (s, l) in [
        ("Ｈｅｌｌｏ,ｗｏｒｌｄ!", 22),
        ("ASCII1234-_", 11),
        ("File with space", 15),
        ("制作样本。", 10),
        ("日本語", 6),
        ("샘플은 무료로 드리겠습니다", 26),
        ("👩🐩", 4),
        ("🔬", 2),
    ] {
        let output = format!("\x1B]8;;{}\x1B\x5C{}\x1B]8;;\x1B\x5C", "url://fake-url", s);
        assert_eq!(get_visible_width(&output, true), l);
    }
}

#[test]
fn visible_width_hyperlink_ignored_without_flag() {
    let output = format!("\x1B]8;;{}\x1B\x5C{}\x1B]8;;\x1B\x5C", "url://fake-url", "ab");
    // without the hyperlink flag the escapes count: ESC counts 1 column each
    assert_eq!(get_visible_width(&output, false), 30);
}

#[test]
fn visible_width_unterminated_color_counts() {
    // no closing `m`: nothing is invisible
    assert_eq!(get_visible_width("\u{1b}[38;5;1", false), 8);
    // escape bytes beyond the width: the width cannot be measured
    assert_eq!(try_get_visible_width("\u{1b}[日本語m", false), None);
    assert_eq!(try_get_visible_width("\u{1b}[1m日本語\u{1b}[0m", false), Some(6));
}

#[test]
fn test_display_tree_with_all() {
    let metas = vec![dir("one.d", vec![file(".hidden"), file("two")])];
    let output = render_tree(&metas, &tree_flags());
    assert_eq!("one.d\n├── .hidden\n└── two\n", output);
}

fn sized(mut m: Meta, value: &str, unit: &str) -> Meta {
    m.size = Some(Size {
        value: value.to_string(),
        value_plain: value.to_string(),
        unit: unit.to_string(),
    });
    m
}

#[test]
fn test_tree_align_subfolder() {
    let f = flags(vec![Block::Size, Block::Name], Layout::Tree);
    let metas = vec![sized(dir("dir", vec![sized(file("file"), "0", " B")]), "4.0", " KB")];
    let output = render_tree(&metas, &f);
    let length_before_b = |i| -> usize {
        output.lines().nth(i).unwrap().split(['K', 'B']).next().unwrap().len()
    };
    assert_eq!(length_before_b(0), length_before_b(1));
    assert_eq!(
        output.lines().next().unwrap().find('d'),
        output.lines().nth(1).unwrap().find('└')
    );
}

#[test]
fn test_tree_size_first_without_name() {
    let f = flags(vec![Block::Size, Block::Permission], Layout::Tree);
    let mut d = dir("dir", vec![]);
    d.permissions = Some("rwxr-xr-x".to_string());
    let mut fl = file("file");
    fl.permissions = Some("rw-r--r--".to_string());
    d.content = Some(vec![sized(fl, "0", " B")]);
    let metas = vec![sized(d, "4.0", " KB")];
    let output = render_tree(&metas, &f);
    assert_eq!(output.lines().nth(1).unwrap().chars().next().unwrap(), '└');
    assert_eq!(
        output.lines().next().unwrap().chars().position(|x| x == 'd'),
        output.lines().nth(1).unwrap().chars().position(|x| x == '.'),
    );
}

#[test]
fn test_tree_edge_before_name() {
    let f = flags(long_blocks(), Layout::Tree);
    let metas = vec![dir("one.d", vec![file("two")])];
    let output = render_tree(&metas, &f);
    assert!(output.ends_with("└── two\n"));
}

#[test]
fn test_grid_all_block_headers() {
    let mut f = flags(
        vec![
            Block::Permission,
            Block::User,
            Block::Group,
            Block::Size,
            Block::Date,
            Block::Name,
            Block::INode,
            Block::Links,
        ],
        Layout::OneLine,
    );
    f.header = true;
    let metas = vec![dir("testdir", vec![]), file("test")];
    let output = grid(&metas, &f, &Colors::no_color(), None);
    assert!(output.contains("Permissions"));
    assert!(output.contains("User"));
    assert!(output.contains("Group"));
    assert!(output.contains("Size"));
    assert!(output.contains("Date Modified"));
    assert!(output.contains("Name"));
    assert!(output.contains("INode"));
    assert!(output.contains("Links"));
}

#[test]
fn test_grid_no_header_with_empty_meta() {
    let mut f = flags(long_blocks(), Layout::OneLine);
    f.header = true;
    let metas = vec![dir("testdir", vec![])];
    let output = grid(&metas, &f, &Colors::no_color(), None);
    assert!(!output.contains("Permissions"));
    assert!(!output.contains("User"));
    assert!(!output.contains("Group"));
    assert!(!output.contains("Size"));
    assert!(!output.contains("Date Modified"));
    assert!(!output.contains("Name"));
}

#[test]
fn test_folder_path() {
    let f = file("file");
    let d = dir("dir", vec![]);
    assert_eq!(display_folder_path(&d, 0), format!("  {ROOT}/dir:\n"));
    assert_eq!(display_folder_path(&d, 1), format!("    {ROOT}/dir:\n"));
    assert_eq!(display_folder_path(&d, 2), format!("      {ROOT}/dir:\n"));

    assert!(should_display_folder_path(0, &vec![file("file")]));
    assert!(!should_display_folder_path(0, &vec![dir("dir", vec![])]));
    assert!(should_display_folder_path(0, &vec![file("file"), dir("dir", vec![])]));
    assert!(should_display_folder_path(0, &vec![dir("dir", vec![]), dir("dir", vec![])]));
    assert!(should_display_folder_path(0, &vec![file("file"), file("file")]));
    assert!(should_display_folder_path(3, &vec![dir("dir", vec![])]));
    drop(f);
}

#[test]
fn test_folder_path_with_links() {
    let link = Meta::new("link".to_string(), format!("{ROOT}/link"), FileType::SymLink { is_dir: true });
    assert!(!should_display_folder_path(0, &vec![Meta::new("link".to_string(), format!("{ROOT}/link"), FileType::SymLink { is_dir: true })]));
    assert!(should_display_folder_path(0, &vec![file("file"), Meta::new("link".to_string(), format!("{ROOT}/link"), FileType::SymLink { is_dir: true })]));
    assert!(should_display_folder_path(0, &vec![dir("dir", vec![]), link]));
}

#[test]
fn test_tree_with_max_shown_truncation() {
    let mut f = tree_flags();
    f.max_shown = MaxShown::Count(2);
    let metas = vec![file("a"), file("b"), file("c"), file("d")];
    let output = render_tree(&metas, &f);
    assert!(output.contains("... and 2 more"), "summary line missing");
    let lines: Vec<&str> = output.lines().collect();
    assert_eq!(lines.len(), 3, "expected 2 items + summary line");
}

#[test]
fn test_tree_with_max_shown_auto_uses_top_count() {
    let mut f = tree_flags();
    f.max_shown = MaxShown::Auto;
    let sub = dir("sub", vec![file("s1"), file("s2"), file("s3"), file("s4"), file("s5")]);
    let root = dir("root", vec![file("a.txt"), file("b.txt"), sub]);
    let metas = vec![root];
    let output = render_tree(&metas, &f);
    assert!(
        output.contains("... and 2 more"),
        "subdir should be truncated to top-level count (3), leaving 2 hidden. output:\n{output}"
    );
    assert!(output.contains("a.txt"), "missing a.txt");
    assert!(output.contains("b.txt"), "missing b.txt");
    assert!(output.contains("sub"), "missing sub");
}

#[test]
fn test_tree_columns_auto_max_shown_satisfies_gate() {
    let mut f = tree_flags();
    f.max_shown = MaxShown::Auto;
    f.tree_columns = TreeColumns(true);
    let root = dir(
        "root",
        vec![dir("alpha", vec![file("a1")]), dir("beta", vec![file("b1")]), dir("gamma", vec![file("g1")])],
    );
    let metas = vec![root];
    let output = render_tree(&metas, &f);
    let packed_line = output
        .lines()
        .find(|l| l.contains("alpha") && l.contains("beta") && l.contains("gamma"))
        .unwrap_or_else(|| panic!("expected packed line with all three children. got:\n{output}"));
    assert!(!packed_line.is_empty(), "packed line should not be empty, got:\n{output}");
}

#[test]
fn test_tree_with_tree_filter() {
    let mut f = tree_flags();
    f.tree_filter = true;
    let mut readme = file("readme.md");
    readme.tree_filter_match = false;
    let mut subdir = dir("subdir", vec![]);
    subdir.tree_filter_match = false;
    let metas = vec![file("main.rs"), readme, subdir];
    let output = render_tree(&metas, &f);
    assert!(output.contains("main.rs"), "matching file should be shown");
    assert!(output.contains("subdir"), "dirs should always be shown");
    assert!(!output.contains("readme.md"), "non-matching file should be hidden");
}

#[test]
fn test_tree_with_filter_and_max_shown() {
    let mut f = tree_flags();
    f.tree_filter = true;
    f.max_shown = MaxShown::Count(1);
    let mut c = file("c.md");
    c.tree_filter_match = false;
    let metas = vec![file("a.rs"), file("b.rs"), c];
    let output = render_tree(&metas, &f);
    assert!(!output.contains("c.md"), "non-matching file should be hidden");
    assert!(output.contains("... and 1 more"), "summary should reflect filtered count");
}

fn recursive_flags() -> Flags {
    flags(vec![Block::Name], Layout::Grid)
}

#[test]
fn test_recursion_indent_depth1() {
    let metas = vec![file("root_file"), dir("subdir", vec![file("file.rs")])];
    let output = grid(&metas, &recursive_flags(), &Colors::no_color(), None);
    let header_line = output
        .lines()
        .find(|l| l.contains("subdir") && l.ends_with(':'))
        .expect("header line not found");
    assert!(header_line.starts_with("  "), "depth-1 header should have 2-space indent, got: {header_line:?}");
    let content_line = output.lines().find(|l| l.contains("file.rs")).expect("content line not found");
    assert!(content_line.starts_with("    "), "depth-1 content should have 4-space indent, got: {content_line:?}");
}

#[test]
fn test_recursion_indent_depth2() {
    let nested = dir("subdir/nested", vec![file("deep.rs")]);
    let metas = vec![dir("subdir", vec![nested])];
    let output = grid(&metas, &recursive_flags(), &Colors::no_color(), None);
    let nested_header = output
        .lines()
        .find(|l| l.contains("nested") && l.ends_with(':'))
        .expect("nested header not found");
    assert!(nested_header.starts_with("    "), "depth-2 header should have 4-space indent, got: {nested_header:?}");
    let content_line = output.lines().find(|l| l.contains("deep.rs")).expect("deep.rs content not found");
    assert!(content_line.starts_with("      "), "depth-2 content should have 6-space indent, got: {content_line:?}");
}

#[test]
fn test_recursion_no_double_blank_lines() {
    let metas = vec![file("a_file"), dir("subdir", vec![file("b_file")])];
    let output = grid(&metas, &recursive_flags(), &Colors::no_color(), None);
    assert!(!output.contains("\n\n\n"), "found double blank lines in output:\n{output}");
}

#[test]
fn test_tree_columns_packs_horizontally() {
    let mut f = tree_flags();
    f.max_shown = MaxShown::Count(2);
    f.tree_columns = TreeColumns(true);
    let metas = vec![
        dir("alpha", vec![file("a1.txt"), file("a2.txt")]),
        dir("beta", vec![file("b1.txt"), file("b2.txt")]),
    ];
    let output = render_tree(&metas, &f);
    let first_line = output.lines().next().expect("output has no lines");
    assert!(
        first_line.contains("alpha") && first_line.contains("beta"),
        "first line should contain both top-level dirs, got: {first_line:?}"
    );
}

#[test]
fn test_tree_columns_without_max_shown_falls_back() {
    let mut f = tree_flags();
    f.tree_columns = TreeColumns(true);
    let metas = vec![dir("alpha", vec![]), dir("beta", vec![])];
    let r = tree(&metas, &f, &Colors::no_color(), None);
    assert_eq!(r.fallback, Some(TreeColumnsFallback::MaxShownUnset));
    let alpha_line = r.output.lines().find(|l| l.contains("alpha")).unwrap();
    assert!(!alpha_line.contains("beta"), "fallback should place dirs on separate lines, got: {alpha_line:?}");
}

#[test]
fn test_tree_columns_with_multiple_blocks_falls_back() {
    let mut f = flags(long_blocks(), Layout::Tree);
    f.max_shown = MaxShown::Count(2);
    f.tree_columns = TreeColumns(true);
    let metas = vec![dir("alpha", vec![]), dir("beta", vec![])];
    let r = tree(&metas, &f, &Colors::no_color(), None);
    assert_eq!(r.fallback, Some(TreeColumnsFallback::MultipleBlocks));
    let alpha_line = r.output.lines().find(|l| l.contains("alpha")).unwrap();
    assert!(!alpha_line.contains("beta"), "--long should force vertical fallback, got: {alpha_line:?}");
}

#[test]
fn test_tree_columns_single_dir_packs_children() {
    let mut f = tree_flags();
    f.max_shown = MaxShown::Count(2);
    f.tree_columns = TreeColumns(true);
    let root = dir(
        "root",
        vec![
            dir("alpha", vec![file("a1.txt")]),
            dir("beta", vec![file("b1.txt")]),
            dir("gamma", vec![file("g1.txt")]),
        ],
    );
    let metas = vec![root];
    let output = render_tree(&metas, &f);
    let mut lines = output.lines();
    let header = lines.next().expect("output has no header line");
    assert!(
        !header.contains("alpha") && !header.contains("beta") && !header.contains("gamma"),
        "header should contain only the root dir name, got: {header:?}"
    );
    let packed_line = lines.find(|l| !l.trim().is_empty()).expect("no packed line after header");
    assert!(
        packed_line.contains("alpha") && packed_line.contains("beta") && packed_line.contains("gamma"),
        "packed line should contain all three children, got: {packed_line:?}"
    );
}

#[test]
fn test_tree_columns_single_empty_dir_no_panic() {
    let mut f = tree_flags();
    f.max_shown = MaxShown::Count(2);
    f.tree_columns = TreeColumns(true);
    let metas = vec![dir("root", vec![])];
    let output = render_tree(&metas, &f);
    assert!(!output.is_empty(), "empty-dir case should still print the root name");
}

#[test]
fn tree_columns_exact_layout() {
    let mut f = tree_flags();
    f.max_shown = MaxShown::Count(5);
    f.tree_columns = TreeColumns(true);
    let metas = vec![
        dir("alpha", vec![file("a1"), file("a2")]),
        dir("b", vec![file("b1")]),
        dir("gamma", vec![]),
    ];
    let output = tree(&metas, &f, &Colors::no_color(), None).output;
    assert_eq!(output, "alpha   b       gamma\n├── a1  └── b1       \n└── a2               \n");
    // a narrow terminal: alpha (6) + 2 + b (6) = 14 fits 16, gamma (+ 2 + 5) does not
    let output = tree(&metas, &f, &Colors::no_color(), Some(16)).output;
    assert_eq!(output, "alpha   b     \n├── a1  └── b1\n└── a2        \ngamma\n");
}

#[test]
fn tree_columns_header_joined_to_children() {
    let mut f = tree_flags();
    f.max_shown = MaxShown::Count(1);
    f.tree_columns = TreeColumns(true);
    let metas = vec![dir("root", vec![file("x"), file("y")])];
    let output = tree(&metas, &f, &Colors::no_color(), None).output;
    assert_eq!(output, "root\nx  y\n");
}

#[test]
fn tree_nested_connectors_and_summary() {
    let mut f = tree_flags();
    f.max_shown = MaxShown::Count(2);
    let metas = vec![dir(
        "top",
        vec![dir("a", vec![file("a1"), file("a2"), file("a3")]), file("b"), file("c")],
    )];
    let output = render_tree(&metas, &f);
    assert_eq!(
        output,
        "top\n├── a\n│   ├── a1\n│   ├── a2\n│   └── ... and 1 more\n├── b\n└── ... and 1 more\n"
    );
}

#[test]
fn tree_summary_is_colored() {
    let mut f = tree_flags();
    f.max_shown = MaxShown::Count(0);
    let mut colors = Colors::no_color();
    colors.tree_edge.prefix = "<".to_string();
    colors.tree_edge.suffix = ">".to_string();
    let metas = vec![file("a"), file("b")];
    let output = render_tree(&metas, &f);
    assert_eq!(output, "... and 2 more\n");
    let output = tree(&metas, &f, &colors, None).output;
    assert_eq!(output, "<... and 2 more>\n");
}

#[test]
fn tree_without_blocks_is_refused() {
    let f = flags(vec![], Layout::Tree);
    assert!(try_tree(&vec![file("a")], &f, &Colors::no_color(), None).is_none());
    let mut f = flags(vec![], Layout::Tree);
    f.max_shown = MaxShown::Count(3);
    f.tree_columns = TreeColumns(true);
    let r = try_tree(&vec![file("a")], &f, &Colors::no_color(), None).unwrap();
    assert_eq!(r.fallback, None);
}

#[test]
fn grid_fits_width_and_missing_values() {
    let f = flags(vec![Block::Name], Layout::Grid);
    let metas = vec![plain("aa"), plain("bb"), plain("cc")];
    assert_eq!(grid(&metas, &f, &Colors::no_color(), Some(80)), "aa  bb  cc\n");
    // too narrow for a row: one column
    assert_eq!(grid(&metas, &f, &Colors::no_color(), Some(5)), "aa\nbb\ncc\n");
    let f = flags(vec![Block::User, Block::Name], Layout::OneLine);
    let mut colors = Colors::no_color();
    colors.no_access.prefix = "[".to_string();
    colors.no_access.suffix = "]".to_string();
    assert_eq!(grid(&vec![plain("x")], &f, &colors, None), "[?] x\n");
    assert_eq!(try_grid(&vec![file("x")], &flags(vec![], Layout::OneLine), &colors, None), None);
}

#[test]
fn grid_header_is_centered_and_underlined() {
    let mut f = flags(vec![Block::User, Block::Name], Layout::OneLine);
    f.header = true;
    let mut m = plain("x");
    m.owner = Some(lsd::meta::Owner { user: "alexander".to_string(), group: "g".to_string() });
    let output = grid(&vec![m], &f, &Colors::no_color(), None);
    assert_eq!(
        output,
        "\u{1b}[4m  User   \u{1b}[0m \u{1b}[4mName\u{1b}[0m\nalexander x\n"
    );
}

#[test]
fn listing_with_unmeasurable_name_is_refused() {
    // the escape takes more bytes than the name has columns
    let metas = vec![plain("\u{1b}[日本語m")];
    assert_eq!(try_grid(&metas, &flags(vec![Block::Name], Layout::OneLine), &Colors::no_color(), None), None);
    assert!(try_tree(&metas, &tree_flags(), &Colors::no_color(), None).is_none());
    let ok = vec![plain("\u{1b}[1m日本語\u{1b}[0m")];
    assert_eq!(
        try_grid(&ok, &flags(vec![Block::Name], Layout::OneLine), &Colors::no_color(), None),
        Some("\u{1b}[1m日本語\u{1b}[0m\n".to_string())
    );
}

#[test]
fn get_output_needs_no_alignment_for_tree_connector_column() {
    let f = flags(vec![Block::Size, Block::Name], Layout::Tree);
    let m = sized(file("f"), "12", " B");
    let out = get_output(&m, &Colors::no_color(), &f, DisplayOption::FileName, &PaddingRules { size_value: None }, 0, "");
    assert_eq!(out, vec!["12 B".to_string(), "f".to_string()]);
    let padded = get_output(&m, &Colors::no_color(), &f, DisplayOption::FileName, &PaddingRules { size_value: Some(4) }, 1, "");
    assert_eq!(padded, vec!["  12 B".to_string(), "f".to_string()]);
}

#[test]
fn fallback_tree_equals_plain_tree() {
    let metas = vec![dir("d", vec![file("a"), file("b")])];
    let mut asked = tree_flags();
    asked.tree_columns = TreeColumns(true);
    let plain = tree_flags();
    let a = tree(&metas, &asked, &Colors::no_color(), Some(80));
    let p = tree(&metas, &plain, &Colors::no_color(), Some(80));
    assert_eq!(a.output, p.output);
    assert_eq!(a.fallback, Some(TreeColumnsFallback::MaxShownUnset));
    assert_eq!(p.fallback, None);
}
