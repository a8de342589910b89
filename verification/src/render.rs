use vstd::prelude::*;
use crate::branch::{branch_opt_view, BranchView, GitBranch};
use crate::color::Color;
use crate::path::{CWDPath, CWDPathPart, PathPartView};

verus! {

/// A single piece of prompt text with its color tag. Tokens are emitted in
/// order and concatenated by whatever backend renders them.
#[derive(Debug)]
pub struct ColoredToken {
    pub text: String,
    pub color: Color,
}

/// The model of a token: its characters and its color tag.
#[verifier::ext_equal]
pub struct TokenView {
    pub text: Seq<char>,
    pub color: Color,
}

/// Builds a token model.
pub open spec fn tok(text: Seq<char>, color: Color) -> TokenView {
    TokenView { text: text, color: color }
}

impl View for ColoredToken {
    type V = TokenView;

    open spec fn view(&self) -> TokenView {
        tok(self.text@, self.color)
    }
}

impl PartialEq for ColoredToken {
    fn eq(&self, other: &Self) -> (r: bool) {
        self.text == other.text && self.color == other.color
    }
}

impl vstd::std_specs::cmp::PartialEqSpecImpl for ColoredToken {
    open spec fn obeys_eq_spec() -> bool {
        true
    }

    open spec fn eq_spec(&self, other: &Self) -> bool {
        self@ == other@
    }
}

/// The token-level model of a sequence of concrete tokens.
pub open spec fn tokens_view(toks: Seq<ColoredToken>) -> Seq<TokenView> {
    toks.map_values(|t: ColoredToken| t@)
}

proof fn lemma_tokens_view_push(toks: Seq<ColoredToken>, t: ColoredToken)
    ensures
        tokens_view(toks.push(t)) == tokens_view(toks).push(t@),
{
    assert(tokens_view(toks.push(t)) =~= tokens_view(toks).push(t@));
}

/// The token a resolved branch displays as: branch names cyan, detached
/// commit ids yellow.
pub open spec fn branch_token(b: BranchView) -> TokenView {
    match b {
        BranchView::Branch(s) => tok(s, Color::Cyan),
        BranchView::Detached(s) => tok(s, Color::Yellow),
    }
}

/// The token one path part displays as. A lone `Root` is special-cased by
/// `format_path_spec`; in a longer path the root contributes no text of its
/// own and the separator in front of the next part draws it.
pub open spec fn part_token(p: PathPartView) -> TokenView {
    match p {
        PathPartView::Root => tok(Seq::empty(), Color::Plain),
        PathPartView::DoubleRoot => tok(seq!['/', '/'], Color::Plain),
        PathPartView::Home => tok(seq!['~'], Color::Red),
        PathPartView::Ellipsis => tok(seq!['\u{22ef}'], Color::Muted),
        PathPartView::Normal(s) => tok(s, Color::Green),
    }
}

/// The separator drawn between adjacent parts.
pub open spec fn sep_token() -> TokenView {
    tok(seq!['/'], Color::Plain)
}

/// The parts' tokens joined with separators, in traversal order.
pub open spec fn joined_tokens(parts: Seq<PathPartView>) -> Seq<TokenView>
    decreases parts.len(),
{
    if parts.len() == 0 {
        Seq::empty()
    } else if parts.len() == 1 {
        seq![part_token(parts[0])]
    } else {
        joined_tokens(parts.drop_last()) + seq![sep_token(), part_token(parts.last())]
    }
}

/// What a path displays as: a path that is nothing but a root marker shows
/// that marker's glyph alone; any other path shows its parts joined with
/// separators.
pub open spec fn format_path_spec(parts: Seq<PathPartView>) -> Seq<TokenView> {
    if parts == seq![PathPartView::Root] {
        seq![tok(seq!['/'], Color::Plain)]
    } else if parts == seq![PathPartView::DoubleRoot] {
        seq![tok(seq!['/', '/'], Color::Plain)]
    } else {
        joined_tokens(parts)
    }
}

/// Builds a token from literal text.
fn make_token(text: &str, color: Color) -> (t: ColoredToken)
    ensures
        t@.text == text@,
        t@.color == color,
{
    ColoredToken { text: String::from_str(text), color: color }
}

/// The token one concrete path part displays as.
fn make_part_token(p: &CWDPathPart) -> (t: ColoredToken)
    ensures
        t@ == part_token(p@),
{
    match p {
        CWDPathPart::Root => {
            let t = make_token("", Color::Plain);
            proof {
                reveal_strlit("");
                assert(t@.text =~= Seq::<char>::empty());
            }
            t
        },
        CWDPathPart::DoubleRoot => {
            let t = make_token("//", Color::Plain);
            proof {
                reveal_strlit("//");
                assert(t@.text =~= seq!['/', '/']);
            }
            t
        },
        CWDPathPart::Home => {
            let t = make_token("~", Color::Red);
            proof {
                reveal_strlit("~");
                assert(t@.text =~= seq!['~']);
            }
            t
        },
        CWDPathPart::Ellipsis => {
            let t = make_token("\u{22ef}", Color::Muted);
            proof {
                reveal_strlit("\u{22ef}");
                assert(t@.text =~= seq!['\u{22ef}']);
            }
            t
        },
        CWDPathPart::Normal(s) => ColoredToken { text: s.clone(), color: Color::Green },
    }
}

/// Appends the branch segment's token to the output.
pub fn format_branch(branch: &GitBranch, out: &mut Vec<ColoredToken>)
    ensures
        tokens_view(final(out)@) == tokens_view(old(out)@).push(branch_token(branch@)),
{
    let t = match branch {
        GitBranch::Branch(s) => ColoredToken { text: s.clone(), color: Color::Cyan },
        GitBranch::Detached(s) => ColoredToken { text: s.clone(), color: Color::Yellow },
    };
    proof {
        lemma_tokens_view_push(out@, t);
    }
    out.push(t);
}

/// Appends the path segment's tokens to the output.
#[verifier::loop_isolation(false)]
pub fn format_path(path: &CWDPath, out: &mut Vec<ColoredToken>)
    ensures
        tokens_view(final(out)@) == tokens_view(old(out)@) + format_path_spec(path@),
{
    let n = path.parts.len();
    if n == 1 {
        if matches!(&path.parts[0], CWDPathPart::Root) {
            let t = make_token("/", Color::Plain);
            proof {
                reveal_strlit("/");
                assert(t@.text =~= seq!['/']);
                assert(path@ =~= seq![PathPartView::Root]);
                lemma_tokens_view_push(out@, t);
                assert(tokens_view(out@).push(t@) =~= tokens_view(out@) + format_path_spec(
                    path@,
                ));
            }
            out.push(t);
            return;
        }
        if matches!(&path.parts[0], CWDPathPart::DoubleRoot) {
            let t = make_token("//", Color::Plain);
            proof {
                reveal_strlit("//");
                assert(t@.text =~= seq!['/', '/']);
                assert(path@ =~= seq![PathPartView::DoubleRoot]);
                lemma_tokens_view_push(out@, t);
                assert(tokens_view(out@).push(t@) =~= tokens_view(out@) + format_path_spec(
                    path@,
                ));
            }
            out.push(t);
            return;
        }
    }
    proof {
        assert(path@ != seq![PathPartView::Root]);
        assert(path@ != seq![PathPartView::DoubleRoot]);
        assert(tokens_view(out@) + joined_tokens(path@.subrange(0, 0)) =~= tokens_view(out@));
    }
    let mut i: usize = 0;
    while i < n
        invariant
            i <= n,
            tokens_view(out@) == tokens_view(old(out)@) + joined_tokens(
                path@.subrange(0, i as int),
            ),
        decreases n - i,
    {
        if i > 0 {
            let sep = make_token("/", Color::Plain);
            proof {
                reveal_strlit("/");
                assert(sep@ =~= sep_token());
                lemma_tokens_view_push(out@, sep);
            }
            out.push(sep);
        }
        let t = make_part_token(&path.parts[i]);
        proof {
            lemma_tokens_view_push(out@, t);
            let sub1 = path@.subrange(0, i + 1);
            assert(sub1.drop_last() =~= path@.subrange(0, i as int));
            assert(sub1.last() == path@[i as int]);
            if i == 0 {
                assert(tokens_view(old(out)@) + joined_tokens(path@.subrange(0, 0)) + seq![
                    part_token(path@[0]),
                ] =~= tokens_view(old(out)@) + joined_tokens(sub1));
            } else {
                assert(tokens_view(old(out)@) + joined_tokens(path@.subrange(0, i as int))
                    + seq![sep_token(), part_token(path@[i as int])] =~= tokens_view(
                    old(out)@,
                ) + joined_tokens(sub1));
            }
        }
        out.push(t);
        i = i + 1;
    }
    proof {
        assert(path@.subrange(0, n as int) =~= path@);
    }
}

/// The fixed frame and contents of a prompt with a known working directory:
/// when a branch was resolved, an opening bracket and the branch's token;
/// then the separator bar, the path's tokens, and the closing bracket with
/// its trailing blank. Brackets and bar are blue.
pub open spec fn prompt_tokens(branch: Option<BranchView>, parts: Seq<PathPartView>) -> Seq<
    TokenView,
> {
    let head: Seq<TokenView> = match branch {
        Some(b) => seq![tok(seq!['\u{27e8}'], Color::Blue), branch_token(b)],
        None => Seq::empty(),
    };
    head + seq![tok(seq!['|'], Color::Blue)] + format_path_spec(parts) + seq![
        tok(seq!['\u{27e9}', ' '], Color::Blue),
    ]
}

/// The prompt shown when the working directory cannot be determined: the
/// bar and closing bracket around a red placeholder.
pub open spec fn unknown_tokens() -> Seq<TokenView> {
    seq![
        tok(seq!['|'], Color::Blue),
        tok(seq!['?', '?', '?'], Color::Red),
        tok(seq!['\u{27e9}', ' '], Color::Blue),
    ]
}

/// Renders the whole prompt for a resolved branch (if any) and a prepared
/// path.
pub fn render_prompt(branch: &Option<GitBranch>, path: &CWDPath) -> (out: Vec<ColoredToken>)
    ensures
        tokens_view(out@) == prompt_tokens(branch_opt_view(*branch), path@),
{
    let mut out: Vec<ColoredToken> = Vec::new();
    proof {
        assert(tokens_view(out@) =~= Seq::<TokenView>::empty());
    }
    match branch {
        Some(b) => {
            let t = make_token("\u{27e8}", Color::Blue);
            proof {
                reveal_strlit("\u{27e8}");
                assert(t@ =~= tok(seq!['\u{27e8}'], Color::Blue));
                lemma_tokens_view_push(out@, t);
            }
            out.push(t);
            format_branch(b, &mut out);
        },
        None => {},
    }
    let bar = make_token("|", Color::Blue);
    proof {
        reveal_strlit("|");
        assert(bar@ =~= tok(seq!['|'], Color::Blue));
        lemma_tokens_view_push(out@, bar);
    }
    out.push(bar);
    format_path(path, &mut out);
    let close = make_token("\u{27e9} ", Color::Blue);
    proof {
        reveal_strlit("\u{27e9} ");
        assert(close@ =~= tok(seq!['\u{27e9}', ' '], Color::Blue));
        lemma_tokens_view_push(out@, close);
        assert(tokens_view(out@).push(close@) =~= prompt_tokens(
            branch_opt_view(*branch),
            path@,
        ));
    }
    out.push(close);
    out
}

/// Renders the placeholder prompt for an unknown working directory.
pub fn render_unknown() -> (out: Vec<ColoredToken>)
    ensures
        tokens_view(out@) == unknown_tokens(),
{
    let mut out: Vec<ColoredToken> = Vec::new();
    let bar = make_token("|", Color::Blue);
    let marks = make_token("???", Color::Red);
    let close = make_token("\u{27e9} ", Color::Blue);
    proof {
        reveal_strlit("|");
        reveal_strlit("???");
        reveal_strlit("\u{27e9} ");
        assert(bar@ =~= tok(seq!['|'], Color::Blue));
        assert(marks@ =~= tok(seq!['?', '?', '?'], Color::Red));
        assert(close@ =~= tok(seq!['\u{27e9}', ' '], Color::Blue));
        assert(tokens_view(out@) =~= Seq::<TokenView>::empty());
        lemma_tokens_view_push(out@, bar);
        lemma_tokens_view_push(out@.push(bar), marks);
        lemma_tokens_view_push(out@.push(bar).push(marks), close);
        assert(tokens_view(out@.push(bar).push(marks).push(close)) =~= unknown_tokens());
    }
    out.push(bar);
    out.push(marks);
    out.push(close);
    out
}

} // verus!
