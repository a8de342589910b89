use git_prompt::branch::{branch_from_show_ref, branch_from_symbolic_ref, resolve, GitBranch};
use git_prompt::color::Color;
use git_prompt::path::{CWDPath, CWDPathPart};
use git_prompt::render::{format_path, render_prompt, render_unknown, ColoredToken};

fn normal(s: &str) -> CWDPathPart {
    CWDPathPart::Normal(s.to_string())
}

fn token(s: &str, color: Color) -> ColoredToken {
    ColoredToken {
        text: s.to_string(),
        color,
    }
}

#[test]
fn test_shorten() {
    let mut path = CWDPath::from_str("/tmp");
    path.shorten(0);
    assert_eq!(
        path.parts,
        vec![CWDPathPart::Root, CWDPathPart::Normal("tmp".to_string())]
    )
}

#[test]
fn parse_root_only() {
    let path = CWDPath::from_str("/");
    assert_eq!(path.parts, vec![CWDPathPart::Root]);
}

#[test]
fn parse_plain_path() {
    let path = CWDPath::from_str("/usr/local/bin");
    assert_eq!(
        path.parts,
        vec![CWDPathPart::Root, normal("usr"), normal("local"), normal("bin")]
    );
}

#[test]
fn parse_double_root() {
    let path = CWDPath::from_str("//srv/www");
    assert_eq!(
        path.parts,
        vec![CWDPathPart::DoubleRoot, normal("srv"), normal("www")]
    );
}

#[test]
fn parse_skips_empty_components() {
    let path = CWDPath::from_str("/a//b/");
    assert_eq!(path.parts, vec![CWDPathPart::Root, normal("a"), normal("b")]);
}

#[test]
fn strip_home_of_home_itself_is_home_marker() {
    let mut path = CWDPath::from_str("/home/user");
    let home = CWDPath::from_str("/home/user");
    path.strip_home(&home);
    assert_eq!(path.parts, vec![CWDPathPart::Home]);
}

#[test]
fn strip_home_outside_home_is_a_no_op() {
    let mut path = CWDPath::from_str("/etc/nginx");
    let home = CWDPath::from_str("/home/user");
    path.strip_home(&home);
    assert_eq!(
        path.parts,
        vec![CWDPathPart::Root, normal("etc"), normal("nginx")]
    );
}

#[test]
fn strip_home_under_home_keeps_the_tail() {
    let mut path = CWDPath::from_str("/home/user/projects/demo");
    let home = CWDPath::from_str("/home/user");
    path.strip_home(&home);
    assert_eq!(
        path.parts,
        vec![CWDPathPart::Home, normal("projects"), normal("demo")]
    );
}

#[test]
fn strip_home_sibling_name_is_a_no_op() {
    let mut path = CWDPath::from_str("/home/username");
    let home = CWDPath::from_str("/home/user");
    path.strip_home(&home);
    assert_eq!(
        path.parts,
        vec![CWDPathPart::Root, normal("home"), normal("username")]
    );
}

#[test]
fn strip_home_compares_components_not_root_markers() {
    let mut path = CWDPath::from_str("//home/user/x");
    let home = CWDPath::from_str("/home/user");
    path.strip_home(&home);
    assert_eq!(path.parts, vec![CWDPathPart::Home, normal("x")]);
}

#[test]
fn strip_prefix_removes_matching_front() {
    let mut path = CWDPath::from_str("/home/user/docs");
    let prefix = CWDPath::from_str("/home/user");
    assert!(path.strip_prefix(&prefix));
    assert_eq!(path.parts, vec![normal("docs")]);
}

#[test]
fn strip_prefix_rejects_mismatch() {
    let mut path = CWDPath::from_str("/home/user/docs");
    let prefix = CWDPath::from_str("/var/log");
    assert!(!path.strip_prefix(&prefix));
    assert_eq!(
        path.parts,
        vec![CWDPathPart::Root, normal("home"), normal("user"), normal("docs")]
    );
}

#[test]
fn shorten_elides_leading_middle_parts() {
    let mut path = CWDPath {
        parts: vec![CWDPathPart::Root, normal("a"), normal("bb"), normal("ccc")],
    };
    path.shorten(1);
    assert_eq!(
        path.parts,
        vec![
            CWDPathPart::Root,
            CWDPathPart::Ellipsis,
            normal("b"),
            normal("ccc")
        ]
    );
}

#[test]
fn shorten_keeps_a_lone_middle_part_abbreviated() {
    let mut path = CWDPath {
        parts: vec![CWDPathPart::Root, normal("ab"), normal("cde")],
    };
    path.shorten(0);
    assert_eq!(
        path.parts,
        vec![CWDPathPart::Root, normal("a"), normal("cde")]
    );
}

#[test]
fn shorten_root_alone_is_unchanged() {
    let mut path = CWDPath::from_str("/");
    path.shorten(5);
    assert_eq!(path.parts, vec![CWDPathPart::Root]);
}

#[test]
fn shorten_with_room_for_every_middle_part() {
    let mut path = CWDPath {
        parts: vec![
            CWDPathPart::Root,
            normal("aaa"),
            normal("bb"),
            normal("leaf"),
        ],
    };
    path.shorten(usize::MAX);
    assert_eq!(
        path.parts,
        vec![CWDPathPart::Root, normal("a"), normal("b"), normal("leaf")]
    );
}

#[test]
fn shorten_after_strip_home() {
    let mut path = CWDPath::from_str("/home/user/work/deep/tree/leaf");
    let home = CWDPath::from_str("/home/user");
    path.strip_home(&home);
    path.shorten(1);
    assert_eq!(
        path.parts,
        vec![
            CWDPathPart::Home,
            CWDPathPart::Ellipsis,
            normal("t"),
            normal("leaf")
        ]
    );
}

#[test]
fn symbolic_ref_output_names_the_branch() {
    let r = branch_from_symbolic_ref("main\n");
    assert_eq!(r, Some(GitBranch::Branch("main".to_string())));
}

#[test]
fn symbolic_ref_output_is_trimmed() {
    let r = branch_from_symbolic_ref("  feature/demo \n");
    assert_eq!(r, Some(GitBranch::Branch("feature/demo".to_string())));
}

#[test]
fn symbolic_ref_blank_output_is_no_branch() {
    assert_eq!(branch_from_symbolic_ref("   \n"), None);
    assert_eq!(branch_from_symbolic_ref(""), None);
}

#[test]
fn show_ref_takes_only_the_first_line() {
    let r = branch_from_show_ref("a1b2c3d\nother\n");
    assert_eq!(r, Some(GitBranch::Detached("a1b2c3d".to_string())));
}

#[test]
fn show_ref_blank_output_is_no_branch() {
    assert_eq!(branch_from_show_ref("\n\n"), None);
}

#[test]
fn resolve_prefers_the_symbolic_ref() {
    let r = resolve(Some("main\n"), Some("a1b2c3d\nother\n"));
    assert_eq!(r, Some(GitBranch::Branch("main".to_string())));
}

#[test]
fn resolve_falls_back_to_show_ref() {
    let r = resolve(None, Some("a1b2c3d\nother\n"));
    assert_eq!(r, Some(GitBranch::Detached("a1b2c3d".to_string())));
    let r = resolve(Some(""), Some("a1b2c3d\nother\n"));
    assert_eq!(r, Some(GitBranch::Detached("a1b2c3d".to_string())));
}

#[test]
fn resolve_with_both_failed_is_no_branch() {
    assert_eq!(resolve(None, None), None);
    assert_eq!(resolve(Some("\n"), Some("  ")), None);
}

#[test]
fn lone_root_renders_as_its_glyph() {
    let path = CWDPath::from_str("/");
    let mut out: Vec<ColoredToken> = Vec::new();
    format_path(&path, &mut out);
    assert_eq!(out, vec![token("/", Color::Plain)]);
}

#[test]
fn lone_double_root_renders_as_its_glyph() {
    let path = CWDPath::from_str("//");
    let mut out: Vec<ColoredToken> = Vec::new();
    format_path(&path, &mut out);
    assert_eq!(out, vec![token("//", Color::Plain)]);
}

#[test]
fn path_tokens_are_interspersed_with_separators() {
    let path = CWDPath {
        parts: vec![
            CWDPathPart::Home,
            CWDPathPart::Ellipsis,
            normal("t"),
            normal("leaf"),
        ],
    };
    let mut out: Vec<ColoredToken> = Vec::new();
    format_path(&path, &mut out);
    assert_eq!(
        out,
        vec![
            token("~", Color::Red),
            token("/", Color::Plain),
            token("\u{22ef}", Color::Muted),
            token("/", Color::Plain),
            token("t", Color::Green),
            token("/", Color::Plain),
            token("leaf", Color::Green),
        ]
    );
}

#[test]
fn prompt_with_branch_has_both_brackets() {
    let path = CWDPath {
        parts: vec![CWDPathPart::Root, normal("x")],
    };
    let branch = Some(GitBranch::Branch("main".to_string()));
    let out = render_prompt(&branch, &path);
    assert_eq!(
        out,
        vec![
            token("\u{27e8}", Color::Blue),
            token("main", Color::Cyan),
            token("|", Color::Blue),
            token("", Color::Plain),
            token("/", Color::Plain),
            token("x", Color::Green),
            token("\u{27e9} ", Color::Blue),
        ]
    );
}

#[test]
fn prompt_with_detached_head_is_yellow() {
    let path = CWDPath {
        parts: vec![CWDPathPart::Root],
    };
    let branch = Some(GitBranch::Detached("a1b2c3d".to_string()));
    let out = render_prompt(&branch, &path);
    assert_eq!(
        out,
        vec![
            token("\u{27e8}", Color::Blue),
            token("a1b2c3d", Color::Yellow),
            token("|", Color::Blue),
            token("/", Color::Plain),
            token("\u{27e9} ", Color::Blue),
        ]
    );
}

#[test]
fn prompt_without_branch_has_no_opening_bracket() {
    let path = CWDPath {
        parts: vec![CWDPathPart::Root],
    };
    let out = render_prompt(&None, &path);
    assert_eq!(
        out,
        vec![
            token("|", Color::Blue),
            token("/", Color::Plain),
            token("\u{27e9} ", Color::Blue),
        ]
    );
}

#[test]
fn unknown_directory_renders_the_placeholder() {
    let out = render_unknown();
    assert_eq!(
        out,
        vec![
            token("|", Color::Blue),
            token("???", Color::Red),
            token("\u{27e9} ", Color::Blue),
        ]
    );
}

#[test]
fn color_names_map_to_base_colors() {
    assert_eq!(Color::from_name("red"), Some(Color::Red));
    assert_eq!(Color::from_name("green"), Some(Color::Green));
    assert_eq!(Color::from_name("blue"), Some(Color::Blue));
    assert_eq!(Color::from_name("cyan"), None);
    assert_eq!(Color::from_name(""), None);
}
