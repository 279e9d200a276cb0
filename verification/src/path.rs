use vstd::prelude::*;

verus! {

pub(crate) fn chars_of(s: &str) -> (r: Vec<char>)
    ensures
        r@ == s@,
{
    let mut r: Vec<char> = Vec::new();
    for c in it: s.chars()
        invariant
            r@ == it.seq().take(it.index() as int),
    {
        r.push(c);
    }
    r
}

/// Whether a path is absolute: it starts with a slash.
pub open spec fn is_absolute(p: Seq<char>) -> bool {
    p.len() > 0 && p[0] == '/'
}

/// The components gathered so far, `done`, with the text between the last
/// slash and the end, `cur`, added when it is a name: neither empty nor `.`.
pub open spec fn flush(done: Seq<Seq<char>>, cur: Seq<char>) -> Seq<Seq<char>> {
    if cur.len() == 0 || cur == seq!['.'] {
        done
    } else {
        done.push(cur)
    }
}

/// Reading a path from the left: the components so far and the text since
/// the last slash.
pub open spec fn scan(p: Seq<char>) -> (Seq<Seq<char>>, Seq<char>)
    decreases p.len(),
{
    if p.len() == 0 {
        (Seq::empty(), Seq::empty())
    } else {
        let (done, cur) = scan(p.drop_last());
        if p.last() == '/' {
            (flush(done, cur), Seq::empty())
        } else {
            (done, cur.push(p.last()))
        }
    }
}

/// The names in a path: the texts between slashes, without empty ones and
/// without `.`.
pub open spec fn path_components(p: Seq<char>) -> Seq<Seq<char>> {
    flush(scan(p).0, scan(p).1)
}

/// The path of the `k`-th name: a slash before each name up to it.
pub open spec fn crumb(names: Seq<Seq<char>>, k: int) -> Seq<char>
    decreases k,
{
    if k <= 0 {
        seq!['/'] + names[0]
    } else {
        crumb(names, k - 1) + seq!['/'] + names[k]
    }
}

/// The path to which the next name is added: the root, or the path of the
/// last name followed by a slash.
pub open spec fn crumb_base(names: Seq<Seq<char>>) -> Seq<char> {
    if names.len() == 0 {
        seq!['/']
    } else {
        crumb(names, names.len() - 1) + seq!['/']
    }
}

/// The breadcrumbs of a path: the root, then each name with its path.
pub open spec fn breadcrumbs(p: Seq<char>) -> Seq<(Seq<char>, Seq<char>)> {
    let names = path_components(p);
    seq![(seq!['/'], seq!['/'])] + Seq::new(names.len(), |k: int| (names[k], crumb(names, k)))
}

pub open spec fn parts_view(parts: Seq<(String, String)>) -> Seq<(Seq<char>, Seq<char>)> {
    parts.map_values(|x: (String, String)| (x.0@, x.1@))
}

/// A path being browsed, with its breadcrumbs.
pub struct CurrentPath {
    parts: Vec<(String, String)>,
    path: String,
}

impl CurrentPath {
    /// The path as given.
    pub closed spec fn path(&self) -> Seq<char> {
        self.path@
    }

    /// The breadcrumbs: the root, then each name with the path up to it.
    pub closed spec fn crumbs(&self) -> Seq<(Seq<char>, Seq<char>)> {
        parts_view(self.parts@)
    }

    /// The breadcrumbs of an absolute path; a relative path is refused.
    pub fn new(path: &str) -> (r: Result<Self, ()>)
        requires
            is_absolute(path@) ==> !path_components(path@).contains(seq!['.', '.']),
        ensures
            match r {
                Ok(current) => {
                    &&& is_absolute(path@)
                    &&& current.path() == path@
                    &&& current.crumbs() == breadcrumbs(path@)
                },
                Err(()) => !is_absolute(path@),
            },
    {
        let chars = chars_of(path);
        if chars.len() == 0 || chars[0] != '/' {
            return Err(());
        }
        let ghost p = path@;
        let n = chars.len();
        let mut parts: Vec<(String, String)> = Vec::new();
        proof {
            reveal_strlit("/");
        }
        let root_name = String::from_str("/");
        let root_path = String::from_str("/");
        assert(root_name@ =~= seq!['/']);
        assert(root_path@ =~= seq!['/']);
        parts.push((root_name, root_path));
        let mut partial = String::from_str("/");
        let ghost mut done: Seq<Seq<char>> = Seq::empty();
        let mut start: usize = 0;
        let mut i: usize = 0;
        proof {
            assert(p.take(0) =~= Seq::<char>::empty());
            assert(parts_view(parts@) =~= seq![(seq!['/'], seq!['/'])] + Seq::new(
                done.len(),
                |k: int| (done[k], crumb(done, k)),
            ));
        }
        while i < n
            invariant
                chars@ == p,
                p == path@,
                n == p.len(),
                start <= i <= n,
                scan(p.take(i as int)) == (done, p.subrange(start as int, i as int)),
                partial@ == crumb_base(done),
                parts_view(parts@) == seq![(seq!['/'], seq!['/'])] + Seq::new(
                    done.len(),
                    |k: int| (done[k], crumb(done, k)),
                ),
            decreases n - i,
        {
            proof {
                assert(p.take(i + 1).drop_last() =~= p.take(i as int));
                assert(p.take(i + 1).last() == p[i as int]);
            }
            if chars[i] == '/' {
                if i - start == 0 || (i - start == 1 && chars[start] == '.') {
                    proof {
                        if i - start == 1 {
                            assert(p.subrange(start as int, i as int) =~= seq!['.']);
                        }
                    }
                } else {
                    let name = String::from_str(path.substring_char(start, i));
                    proof {
                        assert(name@ == p.subrange(start as int, i as int));
                        if name@ == seq!['.'] {
                            assert(name@[0] == chars@[start as int]);
                        }
                    }
                    self::add_crumb(&mut parts, &mut partial, name, Ghost(done));
                    proof {
                        done = done.push(p.subrange(start as int, i as int));
                    }
                }
                start = i + 1;
            }
            i = i + 1;
        }
        if i - start == 0 || (i - start == 1 && chars[start] == '.') {
            proof {
                if i - start == 1 {
                    assert(p.subrange(start as int, i as int) =~= seq!['.']);
                }
            }
        } else {
            let name = String::from_str(path.substring_char(start, i));
            proof {
                assert(name@ == p.subrange(start as int, i as int));
                if name@ == seq!['.'] {
                    assert(name@[0] == chars@[start as int]);
                }
            }
            self::add_crumb(&mut parts, &mut partial, name, Ghost(done));
            proof {
                done = done.push(p.subrange(start as int, i as int));
            }
        }
        proof {
            assert(p.take(n as int) =~= p);
        }
        Ok(CurrentPath { parts, path: String::from_str(path) })
    }

    /// The path as given.
    pub fn get(&self) -> (r: String)
        ensures
            r@ == self.path(),
    {
        self.path.clone()
    }

    /// The breadcrumbs, each a name and the path up to it.
    pub fn parts(&self) -> (r: &Vec<(String, String)>)
        ensures
            parts_view(r@) == self.crumbs(),
    {
        &self.parts
    }
}

proof fn lemma_crumb_prefix(names: Seq<Seq<char>>, x: Seq<char>, k: int)
    requires
        0 <= k < names.len(),
    ensures
        crumb(names.push(x), k) == crumb(names, k),
    decreases k,
{
    if k > 0 {
        lemma_crumb_prefix(names, x, k - 1);
    }
}

/// Adds the breadcrumb of `name` after those of `done`.
fn add_crumb(
    parts: &mut Vec<(String, String)>,
    partial: &mut String,
    name: String,
    Ghost(done): Ghost<Seq<Seq<char>>>,
)
    requires
        old(partial)@ == crumb_base(done),
        parts_view(old(parts)@) == seq![(seq!['/'], seq!['/'])] + Seq::new(
            done.len(),
            |k: int| (done[k], crumb(done, k)),
        ),
    ensures
        final(partial)@ == crumb_base(done.push(name@)),
        parts_view(final(parts)@) == seq![(seq!['/'], seq!['/'])] + Seq::new(
            done.len() + 1,
            |k: int| (done.push(name@)[k], crumb(done.push(name@), k)),
        ),
{
    let ghost names = done.push(name@);
    let ghost old_parts = parts@;
    partial.append(name.as_str());
    proof {
        if done.len() > 0 {
            lemma_crumb_prefix(done, name@, done.len() - 1);
        }
        assert(partial@ =~= crumb(names, done.len() as int));
        assert forall|k: int| 0 <= k < done.len() implies #[trigger] crumb(names, k) == crumb(done, k) by {
            lemma_crumb_prefix(done, name@, k);
        }
    }
    let crumb_text = partial.clone();
    parts.push((name, crumb_text));
    proof {
        reveal_strlit("/");
        assert(parts_view(parts@) =~= parts_view(old_parts).push((names[done.len() as int], crumb(names, done.len() as int))));
        assert(parts_view(parts@) =~= seq![(seq!['/'], seq!['/'])] + Seq::new(
            done.len() + 1,
            |k: int| (names[k], crumb(names, k)),
        ));
    }
    partial.append("/");
    proof {
        assert(partial@ =~= crumb_base(names));
    }
}

/// A name: not empty, not `.`, without a slash.
pub open spec fn is_name(w: Seq<char>) -> bool {
    &&& w.len() > 0
    &&& w != seq!['.']
    &&& !w.contains('/')
}

proof fn lemma_scan_slash(q: Seq<char>)
    ensures
        scan(q + seq!['/']) == (flush(scan(q).0, scan(q).1), Seq::<char>::empty()),
{
    assert((q + seq!['/']).drop_last() =~= q);
    assert((q + seq!['/']).last() == '/');
}

proof fn lemma_scan_word(q: Seq<char>, w: Seq<char>)
    requires
        !w.contains('/'),
    ensures
        scan(q + w) == (scan(q).0, scan(q).1 + w),
    decreases w.len(),
{
    if w.len() == 0 {
        assert(q + w =~= q);
        assert(scan(q).1 + w =~= scan(q).1);
    } else {
        let v = w.drop_last();
        assert(!v.contains('/')) by {
            if v.contains('/') {
                let i = choose|i: int| 0 <= i < v.len() && v[i] == '/';
                assert(w[i] == '/');
            }
        }
        lemma_scan_word(q, v);
        assert((q + w).drop_last() =~= q + v);
        assert((q + w).last() == w.last());
        assert(w.last() != '/') by {
            if w.last() == '/' {
                assert(w[w.len() - 1] == '/');
            }
        }
        assert((scan(q).1 + v).push(w.last()) =~= scan(q).1 + w);
    }
}

proof fn lemma_scan_crumb(names: Seq<Seq<char>>, k: int)
    requires
        0 <= k < names.len(),
        forall|i: int| 0 <= i < names.len() ==> is_name(#[trigger] names[i]),
    ensures
        scan(crumb(names, k)) == (names.take(k), names[k]),
    decreases k,
{
    if k == 0 {
        lemma_scan_slash(Seq::<char>::empty());
        assert(Seq::<char>::empty() + seq!['/'] =~= seq!['/']);
        assert(scan(Seq::<char>::empty()) == (Seq::<Seq<char>>::empty(), Seq::<char>::empty()));
        lemma_scan_word(seq!['/'], names[0]);
        assert(Seq::<char>::empty() + names[0] =~= names[0]);
        assert(names.take(0) =~= Seq::<Seq<char>>::empty());
    } else {
        lemma_scan_crumb(names, k - 1);
        let q = crumb(names, k - 1);
        lemma_scan_slash(q);
        lemma_scan_word(q + seq!['/'], names[k]);
        assert(names.take(k - 1).push(names[k - 1]) =~= names.take(k));
        assert(Seq::<char>::empty() + names[k] =~= names[k]);
    }
}

proof fn lemma_scan_names(p: Seq<char>)
    ensures
        !scan(p).1.contains('/'),
        forall|i: int| 0 <= i < scan(p).0.len() ==> is_name(#[trigger] scan(p).0[i]),
    decreases p.len(),
{
    if p.len() > 0 {
        lemma_scan_names(p.drop_last());
        let (done, cur) = scan(p.drop_last());
        if p.last() != '/' {
            assert(!cur.push(p.last()).contains('/')) by {
                if cur.push(p.last()).contains('/') {
                    let i = choose|i: int| 0 <= i < cur.push(p.last()).len() && cur.push(p.last())[i] == '/';
                    if i < cur.len() {
                        assert(cur[i] == '/');
                    }
                }
            }
        } else {
            assert(!Seq::<char>::empty().contains('/'));
        }
    }
}

proof fn lemma_components_are_names(p: Seq<char>)
    ensures
        forall|i: int| 0 <= i < path_components(p).len() ==> is_name(#[trigger] path_components(p)[i]),
{
    lemma_scan_names(p);
}

proof fn lemma_crumb_take(names: Seq<Seq<char>>, m: int, i: int)
    requires
        0 <= i < m <= names.len(),
    ensures
        crumb(names.take(m), i) == crumb(names, i),
    decreases i,
{
    if i > 0 {
        lemma_crumb_take(names, m, i - 1);
    }
}

/// Following a breadcrumb leads back: the breadcrumbs of the path of the
/// `k`-th name are the breadcrumbs up to that name.
pub proof fn breadcrumb_paths_lead_back(p: Seq<char>, k: int)
    requires
        0 <= k < path_components(p).len(),
    ensures
        breadcrumbs(crumb(path_components(p), k)) == breadcrumbs(p).take(k + 2),
{
    let names = path_components(p);
    lemma_components_are_names(p);
    lemma_scan_crumb(names, k);
    let q = crumb(names, k);
    assert(path_components(q) =~= names.take(k + 1)) by {
        assert(names.take(k).push(names[k]) =~= names.take(k + 1));
    }
    assert forall|i: int| 0 <= i <= k implies #[trigger] crumb(names.take(k + 1), i) == crumb(names, i) by {
        lemma_crumb_take(names, k + 1, i);
    }
    assert(breadcrumbs(q) =~= breadcrumbs(p).take(k + 2));
}

/// The components of a path are names: none is empty, none is `.`, and none
/// holds a slash.
pub proof fn components_are_names(p: Seq<char>)
    ensures
        forall|i: int| 0 <= i < path_components(p).len() ==> is_name(#[trigger] path_components(p)[i]),
{
    lemma_components_are_names(p);
}

/// Putting a slash before each of some names gives a path whose components
/// are those names: the path of the `k`-th name has the first `k + 1`
/// names as its components, the `k`-th last.
pub proof fn crumb_paths_have_their_names(names: Seq<Seq<char>>, k: int)
    requires
        0 <= k < names.len(),
        forall|i: int| 0 <= i < names.len() ==> is_name(#[trigger] names[i]),
    ensures
        is_absolute(crumb(names, k)),
        path_components(crumb(names, k)) == names.take(k + 1),
{
    lemma_scan_crumb(names, k);
    assert(names.take(k).push(names[k]) =~= names.take(k + 1));
    lemma_crumb_absolute(names, k);
}

proof fn lemma_crumb_absolute(names: Seq<Seq<char>>, k: int)
    requires
        0 <= k < names.len(),
    ensures
        is_absolute(crumb(names, k)),
    decreases k,
{
    if k > 0 {
        lemma_crumb_absolute(names, k - 1);
        let c = crumb(names, k - 1) + seq!['/'] + names[k];
        assert(c[0] == crumb(names, k - 1)[0]);
    }
}

/// The components of `/home`.
pub(crate) proof fn home_components()
    ensures
        path_components("/home"@) == seq!["home"@],
        is_absolute("/home"@),
{
    reveal_strlit("/home");
    reveal_strlit("home");
    let p = "/home"@;
    assert(p.take(0).len() == 0);
    assert(p.take(1).drop_last() =~= p.take(0));
    assert(p.take(2).drop_last() =~= p.take(1));
    assert(p.take(3).drop_last() =~= p.take(2));
    assert(p.take(4).drop_last() =~= p.take(3));
    assert(p.take(5).drop_last() =~= p.take(4));
    assert(scan(p.take(0)).0 =~= Seq::<Seq<char>>::empty());
    assert(scan(p.take(0)).1 =~= Seq::<char>::empty());
    assert(p.take(1).last() == '/');
    assert(scan(p.take(1)).0 =~= Seq::<Seq<char>>::empty());
    assert(scan(p.take(1)).1 =~= Seq::<char>::empty());
    assert(scan(p.take(2)).0 =~= Seq::<Seq<char>>::empty());
    assert(scan(p.take(3)).0 =~= Seq::<Seq<char>>::empty());
    assert(scan(p.take(4)).0 =~= Seq::<Seq<char>>::empty());
    assert(scan(p.take(5)).0 =~= Seq::<Seq<char>>::empty());
    assert(scan(p.take(2)).1 =~= seq!['h']);
    assert(scan(p.take(3)).1 =~= seq!['h', 'o']);
    assert(scan(p.take(4)).1 =~= seq!['h', 'o', 'm']);
    assert(scan(p.take(5)).1 =~= seq!['h', 'o', 'm', 'e']);
    assert(p.take(5) =~= p);
    assert(seq!['h', 'o', 'm', 'e'] != seq!['.']) by {
        assert(seq!['h', 'o', 'm', 'e'].len() != seq!['.'].len());
    }
    assert(path_components(p) =~= seq![seq!['h', 'o', 'm', 'e']]);
    assert("home"@ =~= seq!['h', 'o', 'm', 'e']);
    assert(seq!["home"@] =~= seq![seq!['h', 'o', 'm', 'e']]);
}

} // verus!
