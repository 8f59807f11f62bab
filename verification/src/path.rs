//! Paths as the bytes that a Unix system takes.

use vstd::prelude::*;

verus! {

/// The byte between the names of a path.
pub const SEPARATOR: u8 = 47;

/// The byte of which the name of a directory for itself is made.
pub const DOT: u8 = 46;

/// A component of a path.
pub enum Component {
    /// The root, at the start of a path.
    Root,
    /// The directory itself, where a path starts with it.
    CurDir,
    /// A name.
    Normal(Seq<u8>),
}

/// A component of a path, in memory.
#[derive(Debug)]
pub enum Part {
    Root,
    CurDir,
    Normal(Vec<u8>),
}

impl View for Part {
    type V = Component;

    open spec fn view(&self) -> Component {
        match self {
            Part::Root => Component::Root,
            Part::CurDir => Component::CurDir,
            Part::Normal(name) => Component::Normal(name@),
        }
    }
}

/// The components that the parts stand for.
pub open spec fn parts(v: Seq<Part>) -> Seq<Component> {
    v.map_values(|x: Part| x@)
}

/// The index of the last separator; -1 if there is none.
pub open spec fn last_separator(p: Seq<u8>) -> int
    decreases p.len(),
{
    if p.len() == 0 {
        -1
    } else if p.last() == SEPARATOR {
        p.len() - 1
    } else {
        last_separator(p.drop_last())
    }
}

/// Whether what stands behind the last separator counts for nothing.
pub open spec fn is_idle(name: Seq<u8>) -> bool {
    name.len() == 0 || name == seq![DOT]
}

/// The components of a path. Repeated and trailing separators count for nothing, and so does a
/// directory's name for itself, but for one that the path starts with.
pub open spec fn components(p: Seq<u8>) -> Seq<Component>
    decreases p.len(),
    via components_decreases
{
    let i = last_separator(p);
    if i < 0 {
        if p.len() == 0 {
            Seq::empty()
        } else if p == seq![DOT] {
            seq![Component::CurDir]
        } else {
            seq![Component::Normal(p)]
        }
    } else {
        let lead = if i == 0 {
            seq![Component::Root]
        } else {
            components(p.take(i))
        };
        let name = p.skip(i + 1);
        if is_idle(name) {
            lead
        } else {
            lead.push(Component::Normal(name))
        }
    }
}

#[via_fn]
proof fn components_decreases(p: Seq<u8>) {
    lemma_last_separator(p);
}

/// A path without what counts for nothing at its end.
pub open spec fn trimmed(p: Seq<u8>) -> Seq<u8>
    decreases p.len(),
    via trimmed_decreases
{
    let i = last_separator(p);
    if i < 0 || !is_idle(p.skip(i + 1)) {
        p
    } else if i == 0 {
        p.take(1)
    } else {
        trimmed(p.take(i))
    }
}

#[via_fn]
proof fn trimmed_decreases(p: Seq<u8>) {
    lemma_last_separator(p);
}

/// The path without its last component; none if there is no component, or only the root.
pub open spec fn parent_of(p: Seq<u8>) -> Option<Seq<u8>>
    decreases p.len(),
    via parent_of_decreases
{
    let i = last_separator(p);
    if i < 0 {
        if p.len() == 0 {
            None
        } else {
            Some(Seq::empty())
        }
    } else if is_idle(p.skip(i + 1)) {
        if i == 0 {
            None
        } else {
            parent_of(p.take(i))
        }
    } else if i == 0 {
        Some(p.take(1))
    } else {
        Some(trimmed(p.take(i)))
    }
}

#[via_fn]
proof fn parent_of_decreases(p: Seq<u8>) {
    lemma_last_separator(p);
}

/// A path taken from a directory: the other path itself if it starts at the root.
pub open spec fn joined(dir: Seq<u8>, rel: Seq<u8>) -> Seq<u8> {
    if rel.len() > 0 && rel[0] == SEPARATOR {
        rel
    } else if dir.len() == 0 || dir.last() == SEPARATOR {
        dir + rel
    } else {
        dir.push(SEPARATOR) + rel
    }
}

/// Whether one path leads to another by its first components.
pub open spec fn leads_to(dir: Seq<u8>, p: Seq<u8>) -> bool {
    components(dir).is_prefix_of(components(p))
}

/// Whether bytes are a name that an entry of a directory can have.
pub open spec fn is_name(name: Seq<u8>) -> bool {
    !is_idle(name) && forall|i: int| 0 <= i < name.len() ==> #[trigger] name[i] != SEPARATOR
}

/// Behind the last separator there is none.
proof fn lemma_last_separator(p: Seq<u8>)
    ensures
        -1 <= last_separator(p) < p.len(),
        last_separator(p) >= 0 ==> p[last_separator(p)] == SEPARATOR,
        forall|k: int| last_separator(p) < k < p.len() ==> #[trigger] p[k] != SEPARATOR,
    decreases p.len(),
{
    if p.len() > 0 && p.last() != SEPARATOR {
        lemma_last_separator(p.drop_last());
        assert forall|k: int| last_separator(p) < k < p.len() implies #[trigger] p[k]
            != SEPARATOR by {
            if k < p.len() - 1 {
                assert(p.drop_last()[k] == p[k]);
            }
        }
    }
}

/// The last separator is the one behind which there is none.
proof fn lemma_last_separator_is(p: Seq<u8>, i: int)
    requires
        -1 <= i < p.len(),
        i >= 0 ==> p[i] == SEPARATOR,
        forall|k: int| i < k < p.len() ==> #[trigger] p[k] != SEPARATOR,
    ensures
        last_separator(p) == i,
{
    lemma_last_separator(p);
}

/// Trimming a path leaves its components.
pub proof fn law_trimmed_has_same_components(p: Seq<u8>)
    ensures
        components(trimmed(p)) == components(p),
        trimmed(p).is_prefix_of(p),
    decreases p.len(),
{
    let i = last_separator(p);
    lemma_last_separator(p);
    if i >= 0 && is_idle(p.skip(i + 1)) {
        if i == 0 {
            let root = p.take(1);
            lemma_last_separator_is(root, 0);
            assert(root.skip(1).len() == 0);
        } else {
            law_trimmed_has_same_components(p.take(i));
        }
    }
}

/// A path has a parent if and only if it ends in another component than the root, and the parent
/// has all components but that one.
pub proof fn law_parent_drops_last_component(p: Seq<u8>)
    ensures
        parent_of(p) is Some <==> components(p).len() > 0 && components(p).last()
            != Component::Root,
        parent_of(p) matches Some(q) ==> components(q) == components(p).drop_last()
            && q.is_prefix_of(p),
    decreases p.len(),
{
    let i = last_separator(p);
    lemma_last_separator(p);
    if i < 0 {
        assert(components(Seq::<u8>::empty()) =~= Seq::<Component>::empty()) by {
            lemma_last_separator(Seq::<u8>::empty());
        }
        if p.len() > 0 {
            assert(components(p).drop_last() =~= Seq::<Component>::empty());
        }
    } else if is_idle(p.skip(i + 1)) {
        if i > 0 {
            law_parent_drops_last_component(p.take(i));
        }
    } else if i == 0 {
        let root = p.take(1);
        lemma_last_separator_is(root, 0);
        assert(root.skip(1).len() == 0);
        assert(components(p).drop_last() =~= seq![Component::Root]);
    } else {
        law_trimmed_has_same_components(p.take(i));
        assert(components(p).drop_last() =~= components(p.take(i)));
    }
}

/// The path of an entry has the components of its directory, and the entry's name behind them.
pub proof fn law_child_components(dir: Seq<u8>, name: Seq<u8>)
    requires
        is_name(name),
    ensures
        components(joined(dir, name)) == components(dir).push(Component::Normal(name)),
{
    let p = joined(dir, name);
    assert(name[0] != SEPARATOR);
    if dir.len() == 0 {
        assert(p =~= name);
        lemma_last_separator_is(p, -1);
        lemma_last_separator_is(dir, -1);
        assert(components(p) =~= components(dir).push(Component::Normal(name)));
    } else if dir.last() == SEPARATOR {
        let i = dir.len() - 1;
        lemma_last_separator_is(p, i);
        lemma_last_separator_is(dir, i);
        assert(p.take(i) =~= dir.take(i));
        assert(p.skip(i + 1) =~= name);
        assert(dir.skip(i + 1).len() == 0);
    } else {
        let i = dir.len() as int;
        lemma_last_separator_is(p, i);
        assert(p.take(i) =~= dir);
        assert(p.skip(i + 1) =~= name);
    }
}

/// The path of an entry is the path of its directory, a slash where that does not end in one, and the
/// name of the entry. A path that starts with a slash is taken by itself.
pub proof fn law_joined_with_a_slash(dir: Seq<u8>, name: Seq<u8>)
    ensures
        name.len() > 0 && name[0] == 0x2F ==> joined(dir, name) == name,
        (name.len() == 0 || name[0] != 0x2F) && dir.len() == 0 ==> joined(dir, name) == name,
        (name.len() == 0 || name[0] != 0x2F) && dir.len() > 0 && dir.last() == 0x2F ==> joined(
            dir,
            name,
        ) == dir + name,
        (name.len() == 0 || name[0] != 0x2F) && dir.len() > 0 && dir.last() != 0x2F ==> joined(
            dir,
            name,
        ) == dir + seq![0x2Fu8] + name,
{
    assert(Seq::<u8>::empty() + name =~= name);
    if dir.len() == 0 {
        assert(dir + name =~= name);
    }
    assert(dir.push(0x2F) =~= dir + seq![0x2Fu8]);
}

/// The parent of a path is what stands before its last slash and name; for a name below the root it is
/// the root, and for a name alone the empty path. Slashes and dots at the end of a path count for
/// nothing.
pub proof fn law_parent_is_before_the_last_slash(dir: Seq<u8>, name: Seq<u8>)
    requires
        name.len() > 0,
        name != seq![0x2Eu8],
        forall|i: int| 0 <= i < name.len() ==> #[trigger] name[i] != 0x2F,
    ensures
        parent_of(name) == Some(Seq::<u8>::empty()),
        parent_of(seq![0x2Fu8] + name) == Some(seq![0x2Fu8]),
        dir.len() > 0 && dir.last() != 0x2F && !(dir.len() >= 2 && dir.last() == 0x2E && dir[dir.len()
            - 2] == 0x2F) ==> parent_of(dir + seq![0x2Fu8] + name) == Some(dir),
        parent_of(Seq::<u8>::empty()) is None,
        parent_of(seq![0x2Fu8]) is None,
        dir.len() > 0 ==> parent_of(dir + seq![0x2Fu8]) == parent_of(dir),
        dir.len() > 0 ==> parent_of(dir + seq![0x2Fu8, 0x2Eu8]) == parent_of(dir),
{
    let none = Seq::<u8>::empty();
    let slash = seq![0x2Fu8];
    lemma_last_separator_is(none, -1);
    lemma_last_separator_is(name, -1);
    let below = slash + name;
    assert forall|k: int| 0 < k < below.len() implies #[trigger] below[k] != SEPARATOR by {
        assert(below[k] == name[k - 1]);
    }
    lemma_last_separator_is(below, 0);
    assert(below.skip(1) =~= name);
    assert(below.take(1) =~= slash);
    lemma_last_separator_is(slash, 0);
    assert(slash.skip(1) =~= none);
    let p = dir + slash + name;
    let i = dir.len() as int;
    assert forall|k: int| i < k < p.len() implies #[trigger] p[k] != SEPARATOR by {
        assert(p[k] == name[k - i - 1]);
    }
    lemma_last_separator_is(p, i);
    assert(p.skip(i + 1) =~= name);
    assert(p.take(i) =~= dir);
    if dir.len() > 0 && dir.last() != 0x2F && !(dir.len() >= 2 && dir.last() == 0x2E && dir[i - 2]
        == 0x2F) {
        lemma_last_separator(dir);
        let j = last_separator(dir);
        if j >= 0 {
            let last = dir.skip(j + 1);
            assert(last.len() > 0);
            if last == seq![DOT] {
                assert(last.len() == 1);
                assert(dir.last() == last[0]);
                assert(dir[i - 2] == SEPARATOR);
            }
            assert(!is_idle(last));
        }
        assert(trimmed(dir) == dir);
    }
    if dir.len() > 0 {
        let q = dir + slash;
        lemma_last_separator_is(q, i);
        assert(q.skip(i + 1) =~= none);
        assert(q.take(i) =~= dir);
        let r = dir + seq![0x2Fu8, 0x2Eu8];
        assert forall|k: int| i < k < r.len() implies #[trigger] r[k] != SEPARATOR by {
            assert(r[k] == 0x2E);
        }
        lemma_last_separator_is(r, i);
        assert(r.skip(i + 1) =~= seq![DOT]);
        assert(r.take(i) =~= dir);
    }
}

/// The components of a path are its names between slashes. A slash in front is the root; a name that
/// is empty, or the dot alone, counts for nothing, but for a dot in front.
pub proof fn law_components_between_slashes(p: Seq<u8>, name: Seq<u8>)
    requires
        forall|i: int| 0 <= i < name.len() ==> #[trigger] name[i] != 0x2F,
    ensures
        components(Seq::<u8>::empty()) == Seq::<Component>::empty(),
        name.len() > 0 && name != seq![0x2Eu8] ==> components(name) == seq![
            Component::Normal(name),
        ],
        components(seq![0x2Eu8]) == seq![Component::CurDir],
        ({
            let lead = if p.len() == 0 {
                seq![Component::Root]
            } else {
                components(p)
            };
            components(p + seq![0x2Fu8] + name) == if name.len() == 0 || name == seq![0x2Eu8] {
                lead
            } else {
                lead.push(Component::Normal(name))
            }
        }),
{
    let none = Seq::<u8>::empty();
    lemma_last_separator_is(none, -1);
    lemma_last_separator_is(name, -1);
    lemma_last_separator_is(seq![0x2Eu8], -1);
    let q = p + seq![0x2Fu8] + name;
    let i = p.len() as int;
    assert forall|k: int| i < k < q.len() implies #[trigger] q[k] != SEPARATOR by {
        assert(q[k] == name[k - i - 1]);
    }
    lemma_last_separator_is(q, i);
    assert(q.take(i) =~= p);
    assert(q.skip(i + 1) =~= name);
}

/// The parent of an entry's path is the entry's directory.
pub proof fn law_parent_of_child(dir: Seq<u8>, name: Seq<u8>)
    requires
        is_name(name),
    ensures
        parent_of(joined(dir, name)) is Some,
        components(parent_of(joined(dir, name))->0) == components(dir),
{
    law_child_components(dir, name);
    law_parent_drops_last_component(joined(dir, name));
    assert(components(dir).push(Component::Normal(name)).drop_last() =~= components(dir));
}

/// A directory leads to whatever it led to, and to the entries of that.
pub proof fn law_child_stays_below(dir: Seq<u8>, p: Seq<u8>, name: Seq<u8>)
    requires
        leads_to(dir, p),
        is_name(name),
    ensures
        leads_to(dir, joined(p, name)),
{
    law_child_components(p, name);
}

/// Where a directory leads to a path but is not that path, it leads to the path's parent.
pub proof fn law_parent_stays_below(dir: Seq<u8>, p: Seq<u8>)
    requires
        leads_to(dir, p),
        components(dir) != components(p),
        parent_of(p) is Some,
    ensures
        leads_to(dir, parent_of(p)->0),
{
    law_parent_drops_last_component(p);
    let a = components(dir);
    let b = components(p);
    if a.len() == b.len() {
        assert(a =~= b);
    }
}

/// A copy of bytes.
pub fn copy_of(s: &[u8]) -> (out: Vec<u8>)
    ensures
        out@ == s@,
{
    let mut out: Vec<u8> = Vec::new();
    for i in 0..s.len()
        invariant
            out@ == s@.take(i as int),
    {
        out.push(s[i]);
        assert(s@.take(i + 1) == s@.take(i as int).push(s@[i as int]));
    }
    assert(s@.take(s@.len() as int) == s@);
    out
}

/// Finds the last separator.
fn find_separator(p: &[u8]) -> (r: Option<usize>)
    ensures
        r == if last_separator(p@) < 0 {
            None
        } else {
            Some(last_separator(p@) as usize)
        },
        r matches Some(i) ==> i < p@.len() && last_separator(p@) == i,
{
    let mut n: usize = p.len();
    while n > 0
        invariant
            n <= p@.len(),
            forall|k: int| n <= k < p@.len() ==> #[trigger] p@[k] != SEPARATOR,
        decreases n,
    {
        if p[n - 1] == SEPARATOR {
            proof {
                lemma_last_separator_is(p@, n - 1);
            }
            return Some(n - 1);
        }
        n -= 1;
    }
    proof {
        lemma_last_separator_is(p@, -1);
    }
    None
}

/// Tells whether a name counts for nothing.
fn counts_for_nothing(name: &[u8]) -> (r: bool)
    ensures
        r == is_idle(name@),
{
    if name.len() == 1 && name[0] == DOT {
        assert(name@ =~= seq![DOT]);
        true
    } else {
        name.len() == 0
    }
}

/// Takes a path apart.
pub fn split(p: &[u8]) -> (v: Vec<Part>)
    ensures
        parts(v@) == components(p@),
    decreases p@.len(),
{
    let mut v: Vec<Part> = Vec::new();
    match find_separator(p) {
        None => {
            if p.len() == 0 {
                assert(parts(v@) =~= components(p@));
            } else if counts_for_nothing(p) {
                v.push(Part::CurDir);
                assert(parts(v@) =~= components(p@));
            } else {
                v.push(Part::Normal(copy_of(p)));
                assert(parts(v@) =~= components(p@));
            }
        },
        Some(i) => {
            if i == 0 {
                v.push(Part::Root);
                assert(parts(v@) =~= seq![Component::Root]);
            } else {
                let lead: &[u8] = &p[0..i];
                assert(lead@ =~= p@.take(i as int));
                v = split(lead);
            }
            let ghost before = parts(v@);
            let n: usize = p.len();
            let name: &[u8] = &p[i + 1..n];
            assert(name@ =~= p@.skip(i + 1));
            if !counts_for_nothing(name) {
                v.push(Part::Normal(copy_of(name)));
                assert(parts(v@) =~= before.push(Component::Normal(name@)));
            }
        },
    }
    v
}

/// Compares bytes.
fn same_bytes(a: &[u8], b: &[u8]) -> (r: bool)
    ensures
        r == (a@ == b@),
{
    if a.len() != b.len() {
        return false;
    }
    let mut i: usize = 0;
    while i < a.len()
        invariant
            0 <= i <= a@.len(),
            a@.len() == b@.len(),
            forall|j: int| 0 <= j < i ==> #[trigger] a@[j] == b@[j],
        decreases a@.len() - i,
    {
        if a[i] != b[i] {
            return false;
        }
        i += 1;
    }
    assert(a@ =~= b@);
    true
}

/// Compares components.
fn same_part(a: &Part, b: &Part) -> (r: bool)
    ensures
        r == (a@ == b@),
{
    match (a, b) {
        (Part::Root, Part::Root) => true,
        (Part::CurDir, Part::CurDir) => true,
        (Part::Normal(x), Part::Normal(y)) => same_bytes(x.as_slice(), y.as_slice()),
        _ => false,
    }
}

/// Tells whether two paths have the same components.
pub fn same_path(a: &[u8], b: &[u8]) -> (r: bool)
    ensures
        r == (components(a@) == components(b@)),
{
    let x: Vec<Part> = split(a);
    let y: Vec<Part> = split(b);
    if x.len() != y.len() {
        assert(parts(x@).len() != parts(y@).len());
        return false;
    }
    let mut i: usize = 0;
    while i < x.len()
        invariant
            0 <= i <= x@.len(),
            x@.len() == y@.len(),
            parts(x@) == components(a@),
            parts(y@) == components(b@),
            forall|j: int| 0 <= j < i ==> #[trigger] parts(x@)[j] == parts(y@)[j],
        decreases x@.len() - i,
    {
        assert(parts(x@)[i as int] == x@[i as int]@);
        assert(parts(y@)[i as int] == y@[i as int]@);
        if !same_part(&x[i], &y[i]) {
            return false;
        }
        i += 1;
    }
    assert(parts(x@) =~= parts(y@));
    true
}

/// Cuts off what counts for nothing at the end of a path.
fn trim<'a>(p: &'a [u8]) -> (r: &'a [u8])
    ensures
        r@ == trimmed(p@),
    decreases p@.len(),
{
    match find_separator(p) {
        None => p,
        Some(i) => {
            let n: usize = p.len();
            let name: &[u8] = &p[i + 1..n];
            assert(name@ =~= p@.skip(i + 1));
            if !counts_for_nothing(name) {
                p
            } else if i == 0 {
                assert(p@.subrange(0, 1) =~= p@.take(1));
                &p[0..1]
            } else {
                let lead: &[u8] = &p[0..i];
                assert(lead@ =~= p@.take(i as int));
                trim(lead)
            }
        },
    }
}

/// The path without its last component.
pub fn parent<'a>(p: &'a [u8]) -> (r: Option<&'a [u8]>)
    ensures
        r is Some <==> parent_of(p@) is Some,
        r matches Some(q) ==> parent_of(p@) == Some(q@),
    decreases p@.len(),
{
    match find_separator(p) {
        None => {
            if p.len() == 0 {
                None
            } else {
                assert(p@.subrange(0, 0) =~= Seq::<u8>::empty());
                Some(&p[0..0])
            }
        },
        Some(i) => {
            let n: usize = p.len();
            let name: &[u8] = &p[i + 1..n];
            assert(name@ =~= p@.skip(i + 1));
            let lead: &[u8] = &p[0..i];
            assert(lead@ =~= p@.take(i as int));
            if counts_for_nothing(name) {
                if i == 0 {
                    None
                } else {
                    parent(lead)
                }
            } else if i == 0 {
                assert(p@.subrange(0, 1) =~= p@.take(1));
                Some(&p[0..1])
            } else {
                Some(trim(lead))
            }
        },
    }
}

/// Takes a path from a directory.
pub fn join(dir: &[u8], rel: &[u8]) -> (out: Vec<u8>)
    ensures
        out@ == joined(dir@, rel@),
{
    if rel.len() > 0 && rel[0] == SEPARATOR {
        return copy_of(rel);
    }
    let mut out: Vec<u8> = copy_of(dir);
    if dir.len() > 0 && dir[dir.len() - 1] != SEPARATOR {
        out.push(SEPARATOR);
    }
    let ghost start = out@;
    for i in 0..rel.len()
        invariant
            out@ == start + rel@.take(i as int),
    {
        out.push(rel[i]);
        assert(out@ =~= start + rel@.take(i + 1));
    }
    assert(rel@.take(rel@.len() as int) == rel@);
    out
}

} // verus!
