use vstd::prelude::*;

verus! {

/// One component of a working-directory path as it is displayed.
///
/// `Root` and `DoubleRoot` are the leading filesystem markers (`/` and the
/// distinct doubled form `//`), `Home` replaces a stripped home-directory
/// prefix, `Ellipsis` stands for elided middle components, and `Normal`
/// carries one literal component name.
#[derive(Debug)]
pub enum CWDPathPart {
    Root,
    DoubleRoot,
    Home,
    Ellipsis,
    Normal(String),
}

/// The mathematical model of a path part: `Normal` carries its characters.
pub enum PathPartView {
    Root,
    DoubleRoot,
    Home,
    Ellipsis,
    Normal(Seq<char>),
}

impl View for CWDPathPart {
    type V = PathPartView;

    open spec fn view(&self) -> PathPartView {
        match self {
            CWDPathPart::Root => PathPartView::Root,
            CWDPathPart::DoubleRoot => PathPartView::DoubleRoot,
            CWDPathPart::Home => PathPartView::Home,
            CWDPathPart::Ellipsis => PathPartView::Ellipsis,
            CWDPathPart::Normal(s) => PathPartView::Normal(s@),
        }
    }
}

impl Clone for CWDPathPart {
    fn clone(&self) -> (r: Self)
        ensures
            r == *self,
    {
        match self {
            CWDPathPart::Root => CWDPathPart::Root,
            CWDPathPart::DoubleRoot => CWDPathPart::DoubleRoot,
            CWDPathPart::Home => CWDPathPart::Home,
            CWDPathPart::Ellipsis => CWDPathPart::Ellipsis,
            CWDPathPart::Normal(s) => CWDPathPart::Normal(s.clone()),
        }
    }
}

impl PartialEq for CWDPathPart {
    fn eq(&self, other: &Self) -> (r: bool) {
        match self {
            CWDPathPart::Root => matches!(other, CWDPathPart::Root),
            CWDPathPart::DoubleRoot => matches!(other, CWDPathPart::DoubleRoot),
            CWDPathPart::Home => matches!(other, CWDPathPart::Home),
            CWDPathPart::Ellipsis => matches!(other, CWDPathPart::Ellipsis),
            CWDPathPart::Normal(a) => match other {
                CWDPathPart::Normal(b) => *a == *b,
                _ => false,
            },
        }
    }
}

impl vstd::std_specs::cmp::PartialEqSpecImpl for CWDPathPart {
    open spec fn obeys_eq_spec() -> bool {
        true
    }

    open spec fn eq_spec(&self, other: &Self) -> bool {
        self@ == other@
    }
}

/// Whether a part is one of the marker variants (everything but `Normal`).
pub open spec fn is_marker(p: PathPartView) -> bool {
    !(p is Normal)
}

/// Whether a part is a filesystem root marker.
pub open spec fn is_root_marker(p: PathPartView) -> bool {
    p is Root || p is DoubleRoot
}

/// A `Normal` part never holds empty text or a path separator.
pub open spec fn part_wf(p: PathPartView) -> bool {
    p matches PathPartView::Normal(s) ==> s.len() > 0 && !s.contains('/')
}

/// A well-formed displayed path: non-empty, led by a marker, with every
/// `Normal` component a non-empty, separator-free name.
pub open spec fn path_wf(parts: Seq<PathPartView>) -> bool {
    &&& parts.len() >= 1
    &&& is_marker(parts[0])
    &&& forall|i: int| 0 <= i < parts.len() ==> part_wf(#[trigger] parts[i])
}

/// A working-directory path: an ordered sequence of parts, from its leading
/// marker through its leaf component, in traversal order.
#[derive(Debug)]
pub struct CWDPath {
    pub parts: Vec<CWDPathPart>,
}

/// The part-level model of a sequence of concrete parts.
pub open spec fn parts_view(parts: Seq<CWDPathPart>) -> Seq<PathPartView> {
    parts.map_values(|p: CWDPathPart| p@)
}

proof fn lemma_parts_view_push(parts: Seq<CWDPathPart>, p: CWDPathPart)
    ensures
        parts_view(parts.push(p)) == parts_view(parts).push(p@),
{
    assert(parts_view(parts.push(p)) =~= parts_view(parts).push(p@));
}

impl View for CWDPath {
    type V = Seq<PathPartView>;

    open spec fn view(&self) -> Seq<PathPartView> {
        parts_view(self.parts@)
    }
}

impl CWDPath {
    pub open spec fn wf(&self) -> bool {
        path_wf(self@)
    }
}

/// The non-empty, separator-free components of a character sequence, split on
/// `/`. `cur` accumulates the component read so far.
pub open spec fn split_components(s: Seq<char>, cur: Seq<char>) -> Seq<Seq<char>>
    decreases s.len(),
{
    if s.len() == 0 {
        if cur.len() == 0 {
            Seq::empty()
        } else {
            seq![cur]
        }
    } else if s[0] == '/' {
        if cur.len() == 0 {
            split_components(s.drop_first(), Seq::empty())
        } else {
            seq![cur] + split_components(s.drop_first(), Seq::empty())
        }
    } else {
        split_components(s.drop_first(), cur.push(s[0]))
    }
}

/// The leading marker an absolute path string starts with: a literal `//`
/// prefix is the distinct doubled root, any other absolute path is rooted.
pub open spec fn root_marker(s: Seq<char>) -> PathPartView {
    if s.len() >= 2 && s[0] == '/' && s[1] == '/' {
        PathPartView::DoubleRoot
    } else {
        PathPartView::Root
    }
}

/// What parsing an absolute path string yields: its root marker followed by
/// one `Normal` part per non-empty component.
pub open spec fn parse_spec(s: Seq<char>) -> Seq<PathPartView> {
    seq![root_marker(s)] + split_components(s, Seq::empty()).map_values(
        |c: Seq<char>| PathPartView::Normal(c),
    )
}

proof fn lemma_split_step_char(s: Seq<char>, start: int, i: int)
    requires
        0 <= start <= i < s.len(),
        s[i] != '/',
    ensures
        split_components(s.subrange(i, s.len() as int), s.subrange(start, i))
            == split_components(s.subrange(i + 1, s.len() as int), s.subrange(start, i + 1)),
{
    let rest = s.subrange(i, s.len() as int);
    assert(rest.drop_first() =~= s.subrange(i + 1, s.len() as int));
    assert(s.subrange(start, i).push(s[i]) =~= s.subrange(start, i + 1));
}

proof fn lemma_split_step_slash(s: Seq<char>, start: int, i: int)
    requires
        0 <= start <= i < s.len(),
        s[i] == '/',
    ensures
        start == i ==> split_components(s.subrange(i, s.len() as int), s.subrange(start, i))
            == split_components(s.subrange(i + 1, s.len() as int), Seq::<char>::empty()),
        start < i ==> split_components(s.subrange(i, s.len() as int), s.subrange(start, i))
            == seq![s.subrange(start, i)] + split_components(
            s.subrange(i + 1, s.len() as int),
            Seq::<char>::empty(),
        ),
{
    let rest = s.subrange(i, s.len() as int);
    assert(rest.drop_first() =~= s.subrange(i + 1, s.len() as int));
    assert(start == i ==> s.subrange(start, i).len() == 0);
}

proof fn lemma_split_end(s: Seq<char>, start: int)
    requires
        0 <= start <= s.len(),
    ensures
        start == s.len() ==> split_components(
            s.subrange(s.len() as int, s.len() as int),
            s.subrange(start, s.len() as int),
        ) == Seq::<Seq<char>>::empty(),
        start < s.len() ==> split_components(
            s.subrange(s.len() as int, s.len() as int),
            s.subrange(start, s.len() as int),
        ) == seq![s.subrange(start, s.len() as int)],
{
    assert(s.subrange(s.len() as int, s.len() as int).len() == 0);
    assert(start == s.len() ==> s.subrange(start, s.len() as int).len() == 0);
}

impl CWDPath {
    /// Parses an already-canonicalized absolute path string into its
    /// displayed parts: the root marker (doubled if the text starts with
    /// `//`), then one `Normal` part per non-empty `/`-separated component.
    #[verifier::loop_isolation(false)]
    pub fn from_str(path: &str) -> (r: CWDPath)
        requires
            path@.len() >= 1,
            path@[0] == '/',
        ensures
            r@ == parse_spec(path@),
            r.wf(),
    {
        let ghost s = path@;
        let n = path.unicode_len();
        let first = if n >= 2 && path.get_char(1) == '/' {
            CWDPathPart::DoubleRoot
        } else {
            CWDPathPart::Root
        };
        assert(first@ == root_marker(s));
        let mut parts: Vec<CWDPathPart> = Vec::new();
        parts.push(first);
        proof {
            assert(parts_view(parts@) =~= seq![root_marker(s)]);
        }
        let ghost mut emitted: Seq<Seq<char>> = Seq::empty();
        proof {
            assert(s.subrange(0, n as int) =~= s);
            assert(s.subrange(0, 0) =~= Seq::<char>::empty());
            assert(emitted + split_components(s.subrange(0, n as int), s.subrange(0, 0))
                =~= split_components(s, Seq::empty()));
        }
        let mut i: usize = 0;
        let mut start: usize = 0;
        while i < n
            invariant
                start <= i <= n,
                forall|j: int| start <= j < i ==> s[j] != '/',
                split_components(s, Seq::empty()) == emitted + split_components(
                    s.subrange(i as int, n as int),
                    s.subrange(start as int, i as int),
                ),
                parts_view(parts@) == seq![root_marker(s)] + emitted.map_values(
                    |c: Seq<char>| PathPartView::Normal(c),
                ),
                forall|k: int|
                    0 <= k < emitted.len() ==> (#[trigger] emitted[k]).len() > 0 && !emitted[
                        k
                    ].contains('/'),
            decreases n - i,
        {
            let c = path.get_char(i);
            if c == '/' {
                if i > start {
                    let comp = path.substring_char(start, i);
                    let part = CWDPathPart::Normal(String::from_str(comp));
                    proof {
                        let sub = s.subrange(start as int, i as int);
                        assert forall|k: int| 0 <= k < sub.len() implies sub[k] != '/' by {
                            assert(sub[k] == s[start + k]);
                        }
                        assert(!sub.contains('/'));
                        lemma_split_step_slash(s, start as int, i as int);
                        lemma_parts_view_push(parts@, part);
                        assert(parts_view(parts@.push(part)) =~= (seq![root_marker(s)]
                            + emitted.push(sub).map_values(
                            |c: Seq<char>| PathPartView::Normal(c),
                        )));
                        emitted = emitted.push(sub);
                    }
                    parts.push(part);
                } else {
                    proof {
                        lemma_split_step_slash(s, start as int, i as int);
                    }
                }
                proof {
                    assert(s.subrange(i + 1, i + 1) =~= Seq::<char>::empty());
                }
                start = i + 1;
            } else {
                proof {
                    lemma_split_step_char(s, start as int, i as int);
                }
            }
            i = i + 1;
        }
        if i > start {
            let comp = path.substring_char(start, i);
            let part = CWDPathPart::Normal(String::from_str(comp));
            proof {
                let sub = s.subrange(start as int, i as int);
                assert forall|k: int| 0 <= k < sub.len() implies sub[k] != '/' by {
                    assert(sub[k] == s[start + k]);
                }
                assert(!sub.contains('/'));
                lemma_split_end(s, start as int);
                lemma_parts_view_push(parts@, part);
                assert(parts_view(parts@.push(part)) =~= (seq![root_marker(s)] + emitted.push(
                    sub,
                ).map_values(|c: Seq<char>| PathPartView::Normal(c))));
                emitted = emitted.push(sub);
            }
            parts.push(part);
        } else {
            proof {
                lemma_split_end(s, start as int);
                assert(emitted + Seq::<Seq<char>>::empty() =~= emitted);
            }
        }
        let r = CWDPath { parts };
        proof {
            assert(emitted == split_components(s, Seq::empty()));
            assert(r@ == parse_spec(s));
            assert forall|k: int| 0 <= k < r@.len() implies part_wf(#[trigger] r@[k]) by {
                if k >= 1 {
                    assert(r@[k] == PathPartView::Normal(emitted[k - 1]));
                }
            }
            assert(r@[0] == root_marker(s));
        }
        r
    }
}

/// What `strip_home` leaves behind: when both paths are rooted and the home
/// directory's components (its root marker aside) prefix the path's, the
/// shared components go and a single `Home` marker replaces the path's root;
/// otherwise the path is untouched.
pub open spec fn strip_home_spec(p: Seq<PathPartView>, h: Seq<PathPartView>) -> Seq<PathPartView>
    recommends
        p.len() >= 1,
        h.len() >= 1,
{
    if is_root_marker(p[0]) && is_root_marker(h[0]) && h.drop_first().is_prefix_of(
        p.drop_first(),
    ) {
        seq![PathPartView::Home] + p.skip(h.len() as int)
    } else {
        p
    }
}

impl CWDPath {
    /// Removes `prefix` from the front of the path when every one of its
    /// parts matches exactly; reports whether it did.
    #[verifier::loop_isolation(false)]
    #[must_use]
    pub fn strip_prefix(&mut self, prefix: &CWDPath) -> (r: bool)
        ensures
            r == prefix@.is_prefix_of(old(self)@),
            r ==> final(self)@ == old(self)@.skip(prefix@.len() as int),
            !r ==> final(self)@ == old(self)@,
    {
        let m = prefix.parts.len();
        let n = self.parts.len();
        if m > n {
            return false;
        }
        let mut i: usize = 0;
        while i < m
            invariant
                i <= m <= n,
                forall|j: int| 0 <= j < i ==> prefix@[j] == self@[j],
            decreases m - i,
        {
            if !(self.parts[i] == prefix.parts[i]) {
                proof {
                    assert(prefix@[i as int] != self@[i as int]);
                    if prefix@.is_prefix_of(self@) {
                        assert(prefix@[i as int] == self@.subrange(0, m as int)[i as int]);
                    }
                }
                return false;
            }
            i = i + 1;
        }
        proof {
            assert(prefix@ =~= self@.subrange(0, m as int));
        }
        let mut rest: Vec<CWDPathPart> = Vec::new();
        let mut j: usize = m;
        while j < n
            invariant
                m <= j <= n,
                parts_view(rest@) == self@.subrange(m as int, j as int),
            decreases n - j,
        {
            let p = self.parts[j].clone();
            proof {
                lemma_parts_view_push(rest@, p);
                assert(self@.subrange(m as int, j as int).push(self@[j as int]) =~= self
                    @.subrange(m as int, j + 1));
            }
            rest.push(p);
            j = j + 1;
        }
        self.parts = rest;
        proof {
            assert(self@ =~= old(self)@.skip(m as int));
        }
        true
    }

    /// Substitutes a single `Home` marker for the path's root marker and the
    /// home directory's components when the latter prefix the path's; a path
    /// not under the home directory is left untouched.
    #[verifier::loop_isolation(false)]
    pub fn strip_home(&mut self, home: &CWDPath)
        requires
            old(self).wf(),
            home.wf(),
        ensures
            final(self)@ == strip_home_spec(old(self)@, home@),
            final(self).wf(),
    {
        let n = self.parts.len();
        let m = home.parts.len();
        let p_root = matches!(&self.parts[0], CWDPathPart::Root | CWDPathPart::DoubleRoot);
        let h_root = matches!(&home.parts[0], CWDPathPart::Root | CWDPathPart::DoubleRoot);
        if !p_root || !h_root {
            return;
        }
        if m > n {
            return;
        }
        let mut i: usize = 1;
        while i < m
            invariant
                1 <= i <= m <= n,
                forall|j: int| 1 <= j < i ==> home@[j] == self@[j],
            decreases m - i,
        {
            if !(self.parts[i] == home.parts[i]) {
                proof {
                    assert(home@.drop_first()[i - 1] != self@.drop_first()[i - 1]);
                }
                return;
            }
            i = i + 1;
        }
        proof {
            assert(home@.drop_first() =~= self@.drop_first().subrange(0, m - 1));
        }
        let mut rest: Vec<CWDPathPart> = Vec::new();
        rest.push(CWDPathPart::Home);
        proof {
            assert(parts_view(rest@) =~= seq![PathPartView::Home]);
        }
        let mut j: usize = m;
        while j < n
            invariant
                m <= j <= n,
                parts_view(rest@) == seq![PathPartView::Home] + self@.subrange(
                    m as int,
                    j as int,
                ),
            decreases n - j,
        {
            let p = self.parts[j].clone();
            proof {
                lemma_parts_view_push(rest@, p);
                assert((seq![PathPartView::Home] + self@.subrange(m as int, j as int)).push(
                    self@[j as int]) =~= seq![PathPartView::Home] + self@.subrange(
                    m as int,
                    j + 1,
                ));
            }
            rest.push(p);
            j = j + 1;
        }
        self.parts = rest;
        proof {
            assert(self@ =~= seq![PathPartView::Home] + old(self)@.skip(m as int));
            assert forall|k: int| 0 <= k < self@.len() implies part_wf(#[trigger] self@[k]) by {
                if k >= 1 {
                    assert(self@[k] == old(self)@[k + m - 1]);
                }
            }
        }
    }
}

/// Marker parts pass through abbreviation unchanged; a `Normal` name is cut
/// to its first character.
pub open spec fn abbrev_part(p: PathPartView) -> PathPartView {
    match p {
        PathPartView::Normal(s) => PathPartView::Normal(s.subrange(0, 1)),
        _ => p,
    }
}

proof fn lemma_abbrev_part_wf(p: PathPartView)
    requires
        part_wf(p),
    ensures
        part_wf(abbrev_part(p)),
{
    match p {
        PathPartView::Normal(s) => {
            if s.subrange(0, 1).contains('/') {
                assert(s.subrange(0, 1)[0] == s[0]);
                assert(s.contains('/')) by {
                    assert(s[0] == '/');
                }
            }
        },
        _ => {},
    }
}

/// What `shorten` displays: the first and the last part stay in full; of the
/// middle parts only the trailing `additional` stay (all of them when the
/// middle is a single part, whatever `additional` says), each cut to its
/// first character; an `Ellipsis` marker stands in for whatever middle parts
/// were dropped.
pub open spec fn shorten_spec(parts: Seq<PathPartView>, additional: nat) -> Seq<PathPartView>
    recommends
        parts.len() >= 1,
{
    if parts.len() <= 1 {
        parts
    } else {
        let middle = parts.subrange(1, parts.len() - 1);
        let eff: nat = if middle.len() == 1 {
            1
        } else {
            additional
        };
        let kept = if middle.len() <= eff {
            middle
        } else {
            middle.subrange(middle.len() - eff, middle.len() as int)
        };
        let lead: Seq<PathPartView> = if middle.len() > eff {
            seq![PathPartView::Ellipsis]
        } else {
            Seq::empty()
        };
        seq![parts[0]] + lead + kept.map_values(|p: PathPartView| abbrev_part(p)) + seq![
            parts.last(),
        ]
    }
}

impl CWDPath {
    /// Abbreviates the path for display: the leading marker and the leaf
    /// stay in full, the trailing `additional` middle parts (at least one
    /// when the middle is a single part) are each cut to their first
    /// character, and an `Ellipsis` marker replaces the rest of the middle.
    #[verifier::loop_isolation(false)]
    pub fn shorten(&mut self, additional: usize)
        requires
            old(self).wf(),
        ensures
            final(self)@ == shorten_spec(old(self)@, additional as nat),
            final(self).wf(),
    {
        let n = self.parts.len();
        if n <= 1 {
            return;
        }
        let m = n - 2;
        let eff: usize = if m == 1 {
            1
        } else {
            additional
        };
        let keep: usize = if m <= eff {
            m
        } else {
            eff
        };
        let mut new_parts: Vec<CWDPathPart> = Vec::new();
        new_parts.push(self.parts[0].clone());
        if m > eff {
            new_parts.push(CWDPathPart::Ellipsis);
        }
        let ghost lead: Seq<PathPartView> = if m > eff {
            seq![PathPartView::Ellipsis]
        } else {
            Seq::empty()
        };
        proof {
            assert(parts_view(new_parts@) =~= seq![old(self)@[0]] + lead);
        }
        let first_kept = n - 1 - keep;
        let mut i: usize = first_kept;
        while i < n - 1
            invariant
                first_kept <= i <= n - 1,
                parts_view(new_parts@) == seq![old(self)@[0]] + lead + old(self)@.subrange(
                    first_kept as int,
                    i as int,
                ).map_values(|p: PathPartView| abbrev_part(p)),
                forall|k: int|
                    0 <= k < new_parts@.len() ==> part_wf(#[trigger] parts_view(new_parts@)[k]),
            decreases n - 1 - i,
        {
            let p = self.parts[i].clone();
            let q = match p {
                CWDPathPart::Normal(s) => {
                    let c = s.as_str().substring_char(0, 1);
                    CWDPathPart::Normal(String::from_str(c))
                },
                other => other,
            };
            proof {
                assert(part_wf(old(self)@[i as int]));
                assert(q@ == abbrev_part(old(self)@[i as int]));
                lemma_abbrev_part_wf(old(self)@[i as int]);
                lemma_parts_view_push(new_parts@, q);
                assert(old(self)@.subrange(first_kept as int, i as int).map_values(
                    |p: PathPartView| abbrev_part(p),
                ).push(abbrev_part(old(self)@[i as int])) =~= old(self)@.subrange(
                    first_kept as int,
                    i + 1,
                ).map_values(|p: PathPartView| abbrev_part(p)));
            }
            new_parts.push(q);
            i = i + 1;
        }
        let lastp = self.parts[n - 1].clone();
        proof {
            lemma_parts_view_push(new_parts@, lastp);
        }
        new_parts.push(lastp);
        self.parts = new_parts;
        proof {
            let middle = old(self)@.subrange(1, n - 1);
            let kept = if middle.len() <= eff {
                middle
            } else {
                middle.subrange(middle.len() - eff, middle.len() as int)
            };
            assert(kept =~= old(self)@.subrange(first_kept as int, n - 1));
            assert(self@ =~= seq![old(self)@[0]] + lead + kept.map_values(
                |p: PathPartView| abbrev_part(p),
            ) + seq![old(self)@.last()]);
            assert(self@ == shorten_spec(old(self)@, additional as nat));
            assert(part_wf(old(self)@[n - 1]));
            assert(is_marker(self@[0]));
        }
    }
}

/// The first and the last part of a path survive `shorten` unchanged.
pub proof fn lemma_shorten_preserves_ends(parts: Seq<PathPartView>, additional: nat)
    requires
        parts.len() >= 1,
    ensures
        shorten_spec(parts, additional).len() >= 1,
        shorten_spec(parts, additional)[0] == parts[0],
        shorten_spec(parts, additional).last() == parts.last(),
{
    if parts.len() <= 1 {
        assert(parts[0] == parts.last());
    } else {
        let r = shorten_spec(parts, additional);
        assert(r[r.len() - 1] == parts.last());
    }
}

/// A lone middle part is abbreviated to its first character, never elided,
/// whatever `additional` asks for.
pub proof fn lemma_shorten_single_middle(parts: Seq<PathPartView>, additional: nat)
    requires
        parts.len() == 3,
    ensures
        shorten_spec(parts, additional) == seq![parts[0], abbrev_part(parts[1]), parts[2]],
{
    let middle = parts.subrange(1, 2);
    assert(middle.len() == 1);
    assert(middle[0] == parts[1]);
    assert(shorten_spec(parts, additional) =~= seq![parts[0], abbrev_part(parts[1]), parts[2]]);
}

/// Stripping the home directory out of a path equal to the home directory
/// itself leaves exactly the single `Home` marker.
pub proof fn lemma_strip_home_exact(p: Seq<PathPartView>, h: Seq<PathPartView>)
    requires
        p.len() >= 1,
        p == h,
        is_root_marker(p[0]),
    ensures
        strip_home_spec(p, h) == seq![PathPartView::Home],
{
    assert(h.drop_first() =~= p.drop_first().subrange(0, p.drop_first().len() as int));
    assert(h.drop_first().is_prefix_of(p.drop_first()));
    assert(strip_home_spec(p, h) =~= seq![PathPartView::Home]);
}

/// A path whose components the home directory's components do not prefix is
/// left untouched by `strip_home`.
pub proof fn lemma_strip_home_no_prefix(p: Seq<PathPartView>, h: Seq<PathPartView>)
    requires
        p.len() >= 1,
        h.len() >= 1,
        !h.drop_first().is_prefix_of(p.drop_first()),
    ensures
        strip_home_spec(p, h) == p,
{
}

} // verus!
