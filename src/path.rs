//! Confinement of client-supplied paths to the server's working directory.
//!
//! A path is taken apart into components: the non-empty parts between `/`
//! separators, other than `.`. What the filesystem says about a path (does
//! it exist, where do its symbolic links lead) reaches this module as a
//! [`Resolution`] gathered by the caller.
use crate::protocol::PathStatus;
use vstd::prelude::*;

verus! {

/// Whether a component is kept: it is not empty and not `.`.
pub open spec fn kept(c: Seq<char>) -> bool {
    c.len() > 0 && c != seq!['.']
}

/// Adds the component just closed, if it is kept.
pub open spec fn close(done: Seq<Seq<char>>, cur: Seq<char>) -> Seq<Seq<char>> {
    if kept(cur) {
        done.push(cur)
    } else {
        done
    }
}

/// Reads `s` from the left: the components closed so far, and the one being read.
pub open spec fn scan(s: Seq<char>) -> (Seq<Seq<char>>, Seq<char>)
    decreases s.len(),
{
    if s.len() == 0 {
        (Seq::empty(), Seq::empty())
    } else {
        let (done, cur) = scan(s.drop_last());
        if s.last() == '/' {
            (close(done, cur), Seq::empty())
        } else {
            (done, cur.push(s.last()))
        }
    }
}

/// The components of a path.
pub open spec fn components(s: Seq<char>) -> Seq<Seq<char>> {
    close(scan(s).0, scan(s).1)
}

pub open spec fn is_absolute_path(s: Seq<char>) -> bool {
    s.len() > 0 && s[0] == '/'
}

pub open spec fn has_parent_component(s: Seq<char>) -> bool {
    exists|i: int| 0 <= i < components(s).len() && components(s)[i] == seq!['.', '.']
}

/// Components written out with `/` between them.
pub open spec fn joined_path(cs: Seq<Seq<char>>) -> Seq<char>
    decreases cs.len(),
{
    if cs.len() == 0 {
        Seq::empty()
    } else if cs.len() == 1 {
        cs[0]
    } else {
        joined_path(cs.drop_last()) + seq!['/'] + cs.last()
    }
}

/// The components of a path's parent; the root is its own parent.
pub open spec fn parent_components(cs: Seq<Seq<char>>) -> Seq<Seq<char>> {
    if cs.len() == 0 {
        cs
    } else {
        cs.drop_last()
    }
}

/// An absolute path with the given components.
pub open spec fn absolute_path(cs: Seq<Seq<char>>) -> Seq<char> {
    seq!['/'] + joined_path(cs)
}

/// What the filesystem says about the joined target path.
pub enum Resolution {
    /// The target exists; its canonical form, or `None` if canonicalization failed.
    Existing(Option<String>),
    /// The target does not exist and neither does its parent directory.
    NoParent,
    /// The target does not exist, its parent does; the parent's canonical
    /// form, or `None` if canonicalization failed.
    Parent(Option<String>),
}

/// Model of a [`Resolution`].
pub enum ResolutionModel {
    Existing(Option<Seq<char>>),
    NoParent,
    Parent(Option<Seq<char>>),
}

impl View for Resolution {
    type V = ResolutionModel;

    open spec fn view(&self) -> ResolutionModel {
        match self {
            Resolution::Existing(c) => ResolutionModel::Existing(
                match c {
                    Some(s) => Some(s@),
                    None => None,
                },
            ),
            Resolution::NoParent => ResolutionModel::NoParent,
            Resolution::Parent(c) => ResolutionModel::Parent(
                match c {
                    Some(s) => Some(s@),
                    None => None,
                },
            ),
        }
    }
}

/// The components of the target `working_dir` joined with `path`.
pub open spec fn target_components(path: Seq<char>, working_dir: Seq<char>) -> Seq<Seq<char>> {
    components(working_dir) + components(path)
}

/// The canonical components of the target: its own canonical form if it
/// exists; if not, its parent's canonical form followed by its file name;
/// the target as it stands if its parent does not exist either.
pub open spec fn canonical_target(
    path: Seq<char>,
    working_dir: Seq<char>,
    res: ResolutionModel,
) -> Result<Seq<Seq<char>>, PathStatus> {
    let target = target_components(path, working_dir);
    match res {
        ResolutionModel::Existing(Some(c)) => Ok(components(c)),
        ResolutionModel::Existing(None) => Err(PathStatus::CanonicalizationFailed),
        ResolutionModel::NoParent => Ok(target),
        ResolutionModel::Parent(Some(c)) => if target.len() == 0 {
            Err(PathStatus::InvalidComponents)
        } else {
            Ok(components(c).push(target.last()))
        },
        ResolutionModel::Parent(None) => Err(PathStatus::CanonicalizationFailed),
    }
}

/// The confined path: the canonical target's components after those of the
/// working directory, or why there is none.
pub open spec fn confined(
    path: Seq<char>,
    working_dir: Seq<char>,
    res: ResolutionModel,
) -> Result<Seq<char>, PathStatus> {
    match canonical_target(path, working_dir, res) {
        Err(e) => Err(e),
        Ok(cs) => {
            let wd = components(working_dir);
            if wd.is_prefix_of(cs) {
                Ok(joined_path(cs.skip(wd.len() as int)))
            } else {
                Err(PathStatus::EscapesWorkingDir)
            }
        },
    }
}

/// The outcome of validating `path` against `working_dir`.
pub open spec fn validated(
    path: Seq<char>,
    working_dir: Seq<char>,
    res: ResolutionModel,
) -> Result<Seq<char>, PathStatus> {
    if is_absolute_path(path) {
        Err(PathStatus::AbsolutePath)
    } else if has_parent_component(path) {
        Err(PathStatus::InvalidComponents)
    } else {
        confined(path, working_dir, res)
    }
}

/// A component as [`components`] yields it: kept, and free of separators.
pub open spec fn well_formed(c: Seq<char>) -> bool {
    kept(c) && !c.contains('/')
}

pub open spec fn all_well_formed(cs: Seq<Seq<char>>) -> bool {
    forall|i: int| 0 <= i < cs.len() ==> well_formed(#[trigger] cs[i])
}

proof fn lemma_scan_well_formed(s: Seq<char>)
    ensures
        all_well_formed(scan(s).0),
        !scan(s).1.contains('/'),
    decreases s.len(),
{
    if s.len() > 0 {
        lemma_scan_well_formed(s.drop_last());
        let (done, cur) = scan(s.drop_last());
        if s.last() != '/' {
            assert forall|j: int| 0 <= j < cur.push(s.last()).len() implies cur.push(s.last())[j]
                != '/' by {
                if j < cur.len() {
                    assert(cur.push(s.last())[j] == cur[j]);
                }
            }
        } else if kept(cur) {
            assert forall|i: int| 0 <= i < done.push(cur).len() implies well_formed(
                #[trigger] done.push(cur)[i],
            ) by {
                if i < done.len() {
                    assert(done.push(cur)[i] == done[i]);
                }
            }
        }
    }
}

proof fn lemma_components_well_formed(s: Seq<char>)
    ensures
        all_well_formed(components(s)),
{
    lemma_scan_well_formed(s);
    let (done, cur) = scan(s);
    if kept(cur) {
        assert forall|i: int| 0 <= i < done.push(cur).len() implies well_formed(
            #[trigger] done.push(cur)[i],
        ) by {
            if i < done.len() {
                assert(done.push(cur)[i] == done[i]);
            }
        }
    }
}

/// Characters other than separators extend the component being read.
proof fn lemma_scan_no_separator(y: Seq<char>, c: Seq<char>)
    requires
        !c.contains('/'),
    ensures
        scan(y + c) == (scan(y).0, scan(y).1 + c),
    decreases c.len(),
{
    if c.len() == 0 {
        assert(y + c =~= y);
        assert(scan(y).1 + c =~= scan(y).1);
    } else {
        let init = c.drop_last();
        assert(!init.contains('/')) by {
            assert forall|j: int| 0 <= j < init.len() implies init[j] != '/' by {
                assert(init[j] == c[j]);
            }
        }
        lemma_scan_no_separator(y, init);
        assert((y + c).drop_last() =~= y + init);
        assert((y + c).last() == c.last());
        assert(c.last() != '/') by {
            assert(c[c.len() - 1] == c.last());
        }
        assert((scan(y).1 + init).push(c.last()) =~= scan(y).1 + c);
    }
}

/// Writing well-formed components out and taking the result apart gives them back.
proof fn lemma_components_of_joined(cs: Seq<Seq<char>>)
    requires
        all_well_formed(cs),
    ensures
        components(joined_path(cs)) == cs,
    decreases cs.len(),
{
    if cs.len() == 0 {
        assert(scan(Seq::<char>::empty()) == (Seq::<Seq<char>>::empty(), Seq::<char>::empty()));
    } else if cs.len() == 1 {
        assert(well_formed(cs[0]));
        lemma_scan_no_separator(Seq::empty(), cs[0]);
        assert(Seq::<char>::empty() + cs[0] =~= cs[0]);
        assert(scan(Seq::<char>::empty()) == (Seq::<Seq<char>>::empty(), Seq::<char>::empty()));
        assert(Seq::<Seq<char>>::empty().push(cs[0]) =~= cs);
    } else {
        let init = cs.drop_last();
        let last = cs.last();
        assert(all_well_formed(init)) by {
            assert forall|i: int| 0 <= i < init.len() implies well_formed(#[trigger] init[i]) by {
                assert(init[i] == cs[i]);
            }
        }
        assert(well_formed(last)) by {
            assert(cs[cs.len() - 1] == last);
        }
        lemma_components_of_joined(init);
        let a = joined_path(init);
        let b = a + seq!['/'];
        assert(b.drop_last() =~= a);
        assert(b.last() == '/');
        assert(scan(b) == (components(a), Seq::<char>::empty()));
        lemma_scan_no_separator(b, last);
        assert(Seq::<char>::empty() + last =~= last);
        assert(init.push(last) =~= cs);
    }
}

proof fn lemma_joined_is_relative(cs: Seq<Seq<char>>)
    requires
        all_well_formed(cs),
    ensures
        !is_absolute_path(joined_path(cs)),
    decreases cs.len(),
{
    if cs.len() == 1 {
        assert(well_formed(cs[0]));
        assert(cs[0][0] != '/');
    } else if cs.len() > 1 {
        let init = cs.drop_last();
        assert(all_well_formed(init)) by {
            assert forall|i: int| 0 <= i < init.len() implies well_formed(#[trigger] init[i]) by {
                assert(init[i] == cs[i]);
            }
        }
        lemma_joined_is_relative(init);
        assert(init.len() > 0);
        lemma_joined_nonempty(init);
        assert((joined_path(init) + seq!['/'] + cs.last())[0] == joined_path(init)[0]);
    }
}

proof fn lemma_joined_nonempty(cs: Seq<Seq<char>>)
    requires
        all_well_formed(cs),
        cs.len() > 0,
    ensures
        joined_path(cs).len() > 0,
    decreases cs.len(),
{
    assert(well_formed(cs[0]));
    if cs.len() > 1 {
        let init = cs.drop_last();
        assert(all_well_formed(init)) by {
            assert forall|i: int| 0 <= i < init.len() implies well_formed(#[trigger] init[i]) by {
                assert(init[i] == cs[i]);
            }
        }
        lemma_joined_nonempty(init);
    }
}

/// Confinement: a path that passes validation is relative, and the working
/// directory's components followed by its components are exactly the
/// canonical target's, whether the target exists, only its parent does, or
/// neither.
pub proof fn lemma_validated_path_is_confined(
    path: Seq<char>,
    working_dir: Seq<char>,
    res: ResolutionModel,
)
    requires
        validated(path, working_dir, res) is Ok,
    ensures
        ({
            let p = validated(path, working_dir, res)->Ok_0;
            &&& !is_absolute_path(p)
            &&& canonical_target(path, working_dir, res) == Ok::<Seq<Seq<char>>, PathStatus>(
                components(working_dir) + components(p),
            )
        }),
{
    let wd = components(working_dir);
    let cs = canonical_target(path, working_dir, res)->Ok_0;
    let target = target_components(path, working_dir);
    lemma_components_well_formed(working_dir);
    lemma_components_well_formed(path);
    assert(all_well_formed(cs)) by {
        match res {
            ResolutionModel::Existing(Some(c)) => {
                lemma_components_well_formed(c);
            },
            ResolutionModel::NoParent => {
                assert forall|i: int| 0 <= i < target.len() implies well_formed(
                    #[trigger] target[i],
                ) by {
                    if i < wd.len() {
                        assert(target[i] == wd[i]);
                    } else {
                        assert(target[i] == components(path)[i - wd.len()]);
                    }
                }
            },
            ResolutionModel::Parent(Some(c)) => {
                lemma_components_well_formed(c);
                let k = target.len() - 1;
                assert(target.last() == target[k]);
                if k < wd.len() {
                    assert(target[k] == wd[k]);
                } else {
                    assert(target[k] == components(path)[k - wd.len()]);
                }
                let pc = components(c);
                assert forall|i: int| 0 <= i < pc.push(target.last()).len() implies well_formed(
                    #[trigger] pc.push(target.last())[i],
                ) by {
                    if i < pc.len() {
                        assert(pc.push(target.last())[i] == pc[i]);
                    }
                }
            },
            _ => {},
        }
    }
    let rest = cs.skip(wd.len() as int);
    assert(all_well_formed(rest)) by {
        assert forall|i: int| 0 <= i < rest.len() implies well_formed(#[trigger] rest[i]) by {
            assert(rest[i] == cs[i + wd.len()]);
        }
    }
    lemma_components_of_joined(rest);
    lemma_joined_is_relative(rest);
    assert(wd + rest =~= cs);
}

/// Relies on `String::push`: appends one character.
#[verifier::external_body]
pub(crate) fn push_char(s: &mut String, c: char)
    ensures
        final(s)@ == old(s)@.push(c),
{
    s.push(c);
}

pub(crate) fn chars_of(s: &str) -> (r: Vec<char>)
    ensures
        r@ == s@,
{
    let mut r: Vec<char> = Vec::new();
    for c in it: s.chars()
        invariant
            r@ == it.seq().take(it.index() as int),
    {
        r.push(c);
    }
    r
}

pub open spec fn views(v: Seq<Vec<char>>) -> Seq<Seq<char>> {
    v.map_values(|c: Vec<char>| c@)
}

fn push_kept(done: &mut Vec<Vec<char>>, cur: Vec<char>)
    ensures
        views(final(done)@) == close(views(old(done)@), cur@),
{
    let dot = cur.len() == 1 && cur[0] == '.';
    assert(dot == (cur@ == seq!['.'])) by {
        if cur@.len() == 1 && cur@[0] == '.' {
            assert(cur@ =~= seq!['.']);
        }
    }
    if cur.len() > 0 && !dot {
        let ghost c = cur@;
        done.push(cur);
        assert(views(done@) =~= views(old(done)@).push(c));
    }
}

/// The components of a path.
pub fn split_components(s: &str) -> (r: Vec<Vec<char>>)
    ensures
        views(r@) == components(s@),
{
    let chars = chars_of(s);
    let mut done: Vec<Vec<char>> = Vec::new();
    let mut cur: Vec<char> = Vec::new();
    let mut i: usize = 0;
    assert(chars@.take(0) =~= Seq::<char>::empty());
    assert(views(done@) =~= Seq::<Seq<char>>::empty());
    while i < chars.len()
        invariant
            chars@ == s@,
            i <= chars@.len(),
            (views(done@), cur@) == scan(chars@.take(i as int)),
        decreases chars@.len() - i,
    {
        let c = chars[i];
        assert(chars@.take(i + 1).drop_last() =~= chars@.take(i as int));
        assert(chars@.take(i + 1).last() == c);
        if c == '/' {
            let mut closed: Vec<char> = Vec::new();
            std::mem::swap(&mut cur, &mut closed);
            push_kept(&mut done, closed);
        } else {
            cur.push(c);
        }
        i = i + 1;
    }
    assert(chars@.take(i as int) =~= s@);
    push_kept(&mut done, cur);
    done
}

/// Whether the path starts at the root.
pub fn is_absolute(path: &str) -> (r: bool)
    ensures
        r == is_absolute_path(path@),
{
    let chars = chars_of(path);
    chars.len() > 0 && chars[0] == '/'
}

fn is_parent_ref(c: &Vec<char>) -> (r: bool)
    ensures
        r == (c@ == seq!['.', '.']),
{
    let r = c.len() == 2 && c[0] == '.' && c[1] == '.';
    assert(r ==> c@ =~= seq!['.', '.']);
    r
}

/// Whether any component of the path is `..`.
pub fn has_parent_components(path: &str) -> (r: bool)
    ensures
        r == has_parent_component(path@),
{
    let cs = split_components(path);
    let mut i: usize = 0;
    while i < cs.len()
        invariant
            views(cs@) == components(path@),
            i <= cs@.len(),
            forall|j: int| 0 <= j < i ==> components(path@)[j] != seq!['.', '.'],
        decreases cs@.len() - i,
    {
        assert(components(path@)[i as int] == cs@[i as int]@);
        if is_parent_ref(&cs[i]) {
            return true;
        }
        i = i + 1;
    }
    false
}

pub(crate) fn append_chars(s: &mut String, c: &Vec<char>)
    ensures
        final(s)@ == old(s)@ + c@,
{
    let mut i: usize = 0;
    while i < c.len()
        invariant
            i <= c@.len(),
            s@ == old(s)@ + c@.take(i as int),
        decreases c@.len() - i,
    {
        push_char(s, c[i]);
        i = i + 1;
        assert(s@ =~= old(s)@ + c@.take(i as int));
    }
    assert(c@.take(i as int) =~= c@);
}

/// Writes `cs[from..]` out with `/` between the components.
fn join_from(cs: &Vec<Vec<char>>, from: usize) -> (r: String)
    requires
        from <= cs@.len(),
    ensures
        r@ == joined_path(views(cs@).skip(from as int)),
{
    let mut r = String::new();
    let mut i: usize = from;
    let ghost all = views(cs@).skip(from as int);
    assert(all.take(0) =~= Seq::<Seq<char>>::empty());
    while i < cs.len()
        invariant
            from <= i <= cs@.len(),
            all == views(cs@).skip(from as int),
            r@ == joined_path(all.take(i - from)),
        decreases cs@.len() - i,
    {
        let ghost before = all.take(i - from);
        let ghost after = all.take(i + 1 - from);
        assert(after.drop_last() =~= before);
        assert(after.last() == cs@[i as int]@);
        if i > from {
            push_char(&mut r, '/');
        } else {
            assert(after =~= seq![cs@[i as int]@]);
        }
        append_chars(&mut r, &cs[i]);
        i = i + 1;
    }
    assert(all.take(i - from) =~= all);
    r
}

/// Canonical components of an existing target.
fn canonicalize_existing(canonical: &Option<String>) -> (r: Result<Vec<Vec<char>>, PathStatus>)
    ensures
        match canonical {
            Some(c) => r matches Ok(v) && views(v@) == components(c@),
            None => r == Err::<Vec<Vec<char>>, PathStatus>(PathStatus::CanonicalizationFailed),
        },
{
    match canonical {
        Some(c) => Ok(split_components(c.as_str())),
        None => Err(PathStatus::CanonicalizationFailed),
    }
}

/// Canonical components of a target that does not exist yet.
fn canonicalize_nonexistent(mut target: Vec<Vec<char>>, parent: &Option<Option<String>>) -> (r:
    Result<Vec<Vec<char>>, PathStatus>)
    ensures
        match parent {
            None => r matches Ok(v) && views(v@) == views(target@),
            Some(None) => r == Err::<Vec<Vec<char>>, PathStatus>(
                PathStatus::CanonicalizationFailed,
            ),
            Some(Some(c)) => if target@.len() == 0 {
                r == Err::<Vec<Vec<char>>, PathStatus>(PathStatus::InvalidComponents)
            } else {
                r matches Ok(v) && views(v@) == components(c@).push(views(target@).last())
            },
        },
{
    match parent {
        None => Ok(target),
        Some(None) => Err(PathStatus::CanonicalizationFailed),
        Some(Some(c)) => {
            let ghost t = views(target@);
            match target.pop() {
                None => Err(PathStatus::InvalidComponents),
                Some(name) => {
                    let mut cs = split_components(c.as_str());
                    let ghost before = views(cs@);
                    cs.push(name);
                    assert(views(cs@) =~= before.push(t.last()));
                    Ok(cs)
                },
            }
        },
    }
}

/// The components of `working_dir` joined with `path`.
fn join_components(path: &str, working_dir: &str) -> (r: Vec<Vec<char>>)
    ensures
        views(r@) == target_components(path@, working_dir@),
{
    let mut r = split_components(working_dir);
    let mut tail = split_components(path);
    let ghost a = r@;
    let ghost b = tail@;
    r.append(&mut tail);
    assert(views(r@) =~= views(a) + views(b));
    r
}

/// The paths that the caller probes on disk for a request path: the target
/// (the working directory joined with `path`) and the target's parent.
pub fn probe_paths(path: &str, working_dir: &str) -> (r: (String, String))
    ensures
        r.0@ == absolute_path(target_components(path@, working_dir@)),
        r.1@ == absolute_path(parent_components(target_components(path@, working_dir@))),
{
    let mut t = join_components(path, working_dir);
    let mut target = String::new();
    push_char(&mut target, '/');
    let body = join_from(&t, 0);
    append_str(&mut target, &body);
    assert(views(t@).skip(0) =~= views(t@));
    let ghost full = views(t@);
    if t.len() > 0 {
        let _ = t.pop();
        assert(views(t@) =~= full.drop_last());
    }
    let mut parent = String::new();
    push_char(&mut parent, '/');
    let pbody = join_from(&t, 0);
    assert(views(t@).skip(0) =~= views(t@));
    append_str(&mut parent, &pbody);
    (target, parent)
}

pub(crate) fn append_str(s: &mut String, t: &String)
    ensures
        final(s)@ == old(s)@ + t@,
{
    let c = chars_of(t.as_str());
    append_chars(s, &c);
}

fn is_prefix(a: &Vec<Vec<char>>, b: &Vec<Vec<char>>) -> (r: bool)
    ensures
        r == views(a@).is_prefix_of(views(b@)),
{
    if a.len() > b.len() {
        return false;
    }
    let mut i: usize = 0;
    while i < a.len()
        invariant
            a@.len() <= b@.len(),
            i <= a@.len(),
            forall|j: int| 0 <= j < i ==> views(a@)[j] == views(b@)[j],
        decreases a@.len() - i,
    {
        if !chars_equal(&a[i], &b[i]) {
            assert(views(a@)[i as int] != views(b@)[i as int]);
            return false;
        }
        i = i + 1;
    }
    assert(views(a@).is_prefix_of(views(b@))) by {
        assert(views(a@) =~= views(b@).take(a@.len() as int));
    }
    true
}

fn chars_equal(a: &Vec<char>, b: &Vec<char>) -> (r: bool)
    ensures
        r == (a@ == b@),
{
    if a.len() != b.len() {
        return false;
    }
    let mut i: usize = 0;
    while i < a.len()
        invariant
            a@.len() == b@.len(),
            i <= a@.len(),
            forall|j: int| 0 <= j < i ==> a@[j] == b@[j],
        decreases a@.len() - i,
    {
        if a[i] != b[i] {
            return false;
        }
        i = i + 1;
    }
    assert(a@ =~= b@);
    true
}

/// Resolves the target and keeps it under the working directory; returns
/// the confined path, relative to the working directory.
pub fn resolve_and_validate(path: &str, working_dir: &str, res: &Resolution) -> (r: Result<
    String,
    PathStatus,
>)
    ensures
        match confined(path@, working_dir@, res@) {
            Ok(p) => r matches Ok(s) && s@ == p,
            Err(e) => r == Err::<String, PathStatus>(e),
        },
{
    let target = join_components(path, working_dir);
    let canonical = match res {
        Resolution::Existing(c) => canonicalize_existing(c),
        Resolution::NoParent => canonicalize_nonexistent(target, &None),
        Resolution::Parent(c) => canonicalize_nonexistent(target, &Some(c.clone())),
    };
    let canonical = match canonical {
        Ok(cs) => cs,
        Err(e) => return Err(e),
    };
    let wd = split_components(working_dir);
    if !is_prefix(&wd, &canonical) {
        return Err(PathStatus::EscapesWorkingDir);
    }
    Ok(join_from(&canonical, wd.len()))
}

/// Confines a client-supplied path: absolute paths and paths with a `..`
/// component are refused outright; the rest must stay under the working
/// directory once resolved.
pub fn validate_path(path: &str, working_dir: &str, res: &Resolution) -> (r: Result<
    String,
    PathStatus,
>)
    ensures
        match validated(path@, working_dir@, res@) {
            Ok(p) => r matches Ok(s) && s@ == p,
            Err(e) => r == Err::<String, PathStatus>(e),
        },
{
    if is_absolute(path) {
        return Err(PathStatus::AbsolutePath);
    }
    if has_parent_components(path) {
        return Err(PathStatus::InvalidComponents);
    }
    resolve_and_validate(path, working_dir, res)
}

} // verus!
