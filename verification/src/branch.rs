use vstd::prelude::*;

verus! {

/// The resolved version-control state: a named branch, or a detached HEAD
/// identified by its abbreviated commit id.
#[derive(Debug)]
pub enum GitBranch {
    Branch(String),
    Detached(String),
}

/// The mathematical model of a resolved branch: the variant with the
/// characters of its name or commit id.
pub enum BranchView {
    Branch(Seq<char>),
    Detached(Seq<char>),
}

impl View for GitBranch {
    type V = BranchView;

    open spec fn view(&self) -> BranchView {
        match self {
            GitBranch::Branch(s) => BranchView::Branch(s@),
            GitBranch::Detached(s) => BranchView::Detached(s@),
        }
    }
}

impl PartialEq for GitBranch {
    fn eq(&self, other: &Self) -> (r: bool) {
        match self {
            GitBranch::Branch(a) => match other {
                GitBranch::Branch(b) => *a == *b,
                _ => false,
            },
            GitBranch::Detached(a) => match other {
                GitBranch::Detached(b) => *a == *b,
                _ => false,
            },
        }
    }
}

impl vstd::std_specs::cmp::PartialEqSpecImpl for GitBranch {
    open spec fn obeys_eq_spec() -> bool {
        true
    }

    open spec fn eq_spec(&self, other: &Self) -> bool {
        self@ == other@
    }
}

/// The characters `trim` strips from either end of a query's output: blank,
/// tab, line feed and carriage return.
pub open spec fn is_space(c: char) -> bool {
    c == ' ' || c == '\t' || c == '\n' || c == '\r'
}

/// `s` with its leading whitespace removed.
pub open spec fn trim_start_spec(s: Seq<char>) -> Seq<char>
    decreases s.len(),
{
    if s.len() == 0 {
        s
    } else if is_space(s[0]) {
        trim_start_spec(s.drop_first())
    } else {
        s
    }
}

/// `s` with its trailing whitespace removed.
pub open spec fn trim_end_spec(s: Seq<char>) -> Seq<char>
    decreases s.len(),
{
    if s.len() == 0 {
        s
    } else if is_space(s.last()) {
        trim_end_spec(s.drop_last())
    } else {
        s
    }
}

/// `s` with whitespace removed from both ends.
pub open spec fn trim_spec(s: Seq<char>) -> Seq<char> {
    trim_end_spec(trim_start_spec(s))
}

/// The characters of `s` before its first line feed (all of `s` when it has
/// none).
pub open spec fn first_line_spec(s: Seq<char>) -> Seq<char>
    decreases s.len(),
{
    if s.len() == 0 {
        s
    } else if s[0] == '\n' {
        Seq::empty()
    } else {
        seq![s[0]] + first_line_spec(s.drop_first())
    }
}

proof fn lemma_trim_start_index(s: Seq<char>, a: int)
    requires
        0 <= a <= s.len(),
        forall|j: int| 0 <= j < a ==> is_space(#[trigger] s[j]),
        a < s.len() ==> !is_space(s[a]),
    ensures
        trim_start_spec(s) == s.subrange(a, s.len() as int),
    decreases a,
{
    if a == 0 {
        assert(s.subrange(0, s.len() as int) =~= s);
    } else {
        let t = s.drop_first();
        assert forall|j: int| 0 <= j < a - 1 implies is_space(#[trigger] t[j]) by {
            assert(t[j] == s[j + 1]);
        }
        lemma_trim_start_index(t, a - 1);
        assert(t.subrange(a - 1, t.len() as int) =~= s.subrange(a, s.len() as int));
    }
}

proof fn lemma_trim_end_index(s: Seq<char>, b: int)
    requires
        0 <= b <= s.len(),
        forall|j: int| b <= j < s.len() ==> is_space(#[trigger] s[j]),
        b > 0 ==> !is_space(s[b - 1]),
    ensures
        trim_end_spec(s) == s.subrange(0, b),
    decreases s.len(),
{
    if b == s.len() {
        assert(s.subrange(0, b) =~= s);
    } else {
        let t = s.drop_last();
        assert(is_space(s.last()));
        lemma_trim_end_index(t, b);
        assert(t.subrange(0, b) =~= s.subrange(0, b));
    }
}

proof fn lemma_first_line_index(s: Seq<char>, k: int)
    requires
        0 <= k <= s.len(),
        forall|j: int| 0 <= j < k ==> #[trigger] s[j] != '\n',
        k < s.len() ==> s[k] == '\n',
    ensures
        first_line_spec(s) == s.subrange(0, k),
    decreases k,
{
    if k == 0 {
        assert(s.subrange(0, 0) =~= Seq::<char>::empty());
        if s.len() == 0 {
            assert(s.subrange(0, 0) =~= s);
        }
    } else {
        let t = s.drop_first();
        assert forall|j: int| 0 <= j < k - 1 implies #[trigger] t[j] != '\n' by {
            assert(t[j] == s[j + 1]);
        }
        lemma_first_line_index(t, k - 1);
        assert(seq![s[0]] + t.subrange(0, k - 1) =~= s.subrange(0, k));
    }
}

/// Whether a character counts as whitespace for trimming.
pub fn is_space_char(c: char) -> (r: bool)
    ensures
        r == is_space(c),
{
    c == ' ' || c == '\t' || c == '\n' || c == '\r'
}

/// Returns the argument with whitespace removed from both ends.
#[verifier::loop_isolation(false)]
pub fn trim_str(s: &str) -> (r: String)
    ensures
        r@ == trim_spec(s@),
{
    let n = s.unicode_len();
    let mut a: usize = 0;
    while a < n && is_space_char(s.get_char(a))
        invariant
            a <= n,
            forall|j: int| 0 <= j < a ==> is_space(#[trigger] s@[j]),
        decreases n - a,
    {
        a = a + 1;
    }
    let mut b: usize = n;
    while b > a && is_space_char(s.get_char(b - 1))
        invariant
            a <= b <= n,
            forall|j: int| b <= j < n ==> is_space(#[trigger] s@[j]),
        decreases b,
    {
        b = b - 1;
    }
    let r = String::from_str(s.substring_char(a, b));
    proof {
        lemma_trim_start_index(s@, a as int);
        let u = s@.subrange(a as int, s@.len() as int);
        assert forall|j: int| b - a <= j < u.len() implies is_space(#[trigger] u[j]) by {
            assert(u[j] == s@[a + j]);
        }
        assert(b > a ==> u[b - a - 1] == s@[b - 1]);
        lemma_trim_end_index(u, b - a);
        assert(u.subrange(0, b - a) =~= s@.subrange(a as int, b as int));
    }
    r
}

/// What the primary query's output resolves to: the trimmed text as a named
/// branch, unless it is empty, which counts as a failed lookup.
pub open spec fn symbolic_ref_branch(out: Seq<char>) -> Option<BranchView> {
    if trim_spec(out).len() == 0 {
        None
    } else {
        Some(BranchView::Branch(trim_spec(out)))
    }
}

/// What the fallback query's output resolves to: the first line of the
/// trimmed text, itself trimmed, as a detached-HEAD commit id; output that
/// trims to nothing counts as a failed lookup.
pub open spec fn show_ref_branch(out: Seq<char>) -> Option<BranchView> {
    if trim_spec(out).len() == 0 {
        None
    } else {
        Some(BranchView::Detached(trim_spec(first_line_spec(trim_spec(out)))))
    }
}

/// The model of an optional resolved branch.
pub open spec fn branch_opt_view(r: Option<GitBranch>) -> Option<BranchView> {
    match r {
        Some(b) => Some(b@),
        None => None,
    }
}

/// The model of an optional query output.
pub open spec fn opt_text_view(o: Option<&str>) -> Option<Seq<char>> {
    match o {
        Some(s) => Some(s@),
        None => None,
    }
}

/// Interprets the primary branch query (the short symbolic name of the
/// current ref): success with non-empty trimmed output names the branch.
pub fn branch_from_symbolic_ref(out: &str) -> (r: Option<GitBranch>)
    ensures
        branch_opt_view(r) == symbolic_ref_branch(out@),
{
    let t = trim_str(out);
    if t.as_str().unicode_len() == 0 {
        None
    } else {
        Some(GitBranch::Branch(t))
    }
}

/// Interprets the fallback branch query (the ref listing that also answers
/// on a detached HEAD): the first line of the trimmed output, trimmed, is
/// the abbreviated commit id.
#[verifier::loop_isolation(false)]
pub fn branch_from_show_ref(out: &str) -> (r: Option<GitBranch>)
    ensures
        branch_opt_view(r) == show_ref_branch(out@),
{
    let t = trim_str(out);
    let n = t.as_str().unicode_len();
    if n == 0 {
        return None;
    }
    let mut k: usize = 0;
    while k < n && t.as_str().get_char(k) != '\n'
        invariant
            k <= n,
            forall|j: int| 0 <= j < k ==> #[trigger] t@[j] != '\n',
        decreases n - k,
    {
        k = k + 1;
    }
    let line = t.as_str().substring_char(0, k);
    proof {
        lemma_first_line_index(t@, k as int);
    }
    let id = trim_str(line);
    Some(GitBranch::Detached(id))
}

/// What the two-step resolution yields from the two query outputs (`None`
/// standing for a query that failed or was never run): the primary query's
/// branch when it yields one, else the fallback query's detached commit id,
/// else nothing.
pub open spec fn resolve_spec(sym: Option<Seq<char>>, refs: Option<Seq<char>>) -> Option<
    BranchView,
> {
    let first = match sym {
        Some(s) => symbolic_ref_branch(s),
        None => None,
    };
    if first is Some {
        first
    } else {
        match refs {
            Some(s) => show_ref_branch(s),
            None => None,
        }
    }
}

/// Resolves the branch from the outputs of the two queries, primary first.
pub fn resolve(sym: Option<&str>, refs: Option<&str>) -> (r: Option<GitBranch>)
    ensures
        branch_opt_view(r) == resolve_spec(opt_text_view(sym), opt_text_view(refs)),
{
    let first = match sym {
        Some(s) => branch_from_symbolic_ref(s),
        None => None,
    };
    if first.is_some() {
        first
    } else {
        match refs {
            Some(s) => branch_from_show_ref(s),
            None => None,
        }
    }
}

} // verus!
