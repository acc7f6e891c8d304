//! Keyboard detection and the choice among several keyboards. Enumerating
//! and opening devices is left to the caller, which hands over the supported
//! key codes and the paths of the devices.

use vstd::prelude::*;
use crate::config::{
    KEY_0, KEY_1, KEY_2, KEY_3, KEY_4, KEY_5, KEY_6, KEY_7, KEY_8, KEY_9, KEY_E, KEY_ESC, KEY_Q, KEY_TAB,
    KEY_W,
};

verus! {

/// Keys that every ordinary keyboard has.
pub open spec fn is_typical_keyboard_key(code: u16) -> bool {
    code == KEY_ESC || code == KEY_1 || code == KEY_2 || code == KEY_3 || code == KEY_4
        || code == KEY_5 || code == KEY_6 || code == KEY_7 || code == KEY_8 || code == KEY_9
        || code == KEY_0 || code == KEY_Q || code == KEY_W || code == KEY_E || code == KEY_TAB
}

/// Whether `code` is one of the typical keyboard keys.
fn is_typical_key(code: u16) -> (r: bool)
    ensures
        r == is_typical_keyboard_key(code),
{
    code == KEY_ESC || code == KEY_1 || code == KEY_2 || code == KEY_3 || code == KEY_4
        || code == KEY_5 || code == KEY_6 || code == KEY_7 || code == KEY_8 || code == KEY_9
        || code == KEY_0 || code == KEY_Q || code == KEY_W || code == KEY_E || code == KEY_TAB
}

/// Whether one of `keys` is a typical keyboard key.
fn has_typical_key(keys: &[u16]) -> (r: bool)
    ensures
        r == exists|i: int| 0 <= i < keys@.len() && is_typical_keyboard_key(#[trigger] keys@[i]),
{
    let n = keys.len();
    for i in 0..n
        invariant
            n == keys@.len(),
            forall|k: int| 0 <= k < i ==> !is_typical_keyboard_key(#[trigger] keys@[k]),
    {
        if is_typical_key(keys[i]) {
            assert(is_typical_keyboard_key(keys@[i as int]));
            return true;
        }
    }
    false
}

/// A device is likely a keyboard when it reports supported keys and one of
/// them is a typical keyboard key. `supported_keys` is `None` for a device
/// that reports no key events at all.
pub fn is_likely_keyboard(supported_keys: Option<&[u16]>) -> (r: bool)
    ensures
        r == match supported_keys {
            None => false,
            Some(keys) => exists|i: int| 0 <= i < keys@.len() && is_typical_keyboard_key(#[trigger] keys@[i]),
        },
        r == match supported_keys {
            None => false,
            Some(keys) => exists|i: int|
                0 <= i < keys@.len() && (1 <= #[trigger] keys@[i] <= 11 || 15 <= keys@[i] <= 18),
        },
{
    proof {
        if let Some(keys) = supported_keys {
            lemma_likely_keyboard_codes(keys@);
        }
    }
    match supported_keys {
        None => false,
        Some(keys) => has_typical_key(keys),
    }
}

/// Lexicographic order of byte strings.
pub open spec fn bytes_lt(a: Seq<u8>, b: Seq<u8>) -> bool
    decreases a.len(),
{
    if a.len() == 0 {
        b.len() > 0
    } else if b.len() == 0 {
        false
    } else if a[0] != b[0] {
        a[0] < b[0]
    } else {
        bytes_lt(a.drop_first(), b.drop_first())
    }
}

/// No byte string precedes itself.
pub proof fn lemma_bytes_lt_irreflexive(a: Seq<u8>)
    ensures
        !bytes_lt(a, a),
    decreases a.len(),
{
    if a.len() > 0 {
        lemma_bytes_lt_irreflexive(a.drop_first());
    }
}

/// The byte-string order is transitive.
pub proof fn lemma_bytes_lt_transitive(a: Seq<u8>, b: Seq<u8>, c: Seq<u8>)
    requires
        bytes_lt(a, b),
        bytes_lt(b, c),
    ensures
        bytes_lt(a, c),
    decreases a.len(),
{
    if a.len() > 0 && b.len() > 0 && c.len() > 0 && a[0] == b[0] && b[0] == c[0] {
        lemma_bytes_lt_transitive(a.drop_first(), b.drop_first(), c.drop_first());
    }
}

/// Any two different byte strings are ordered one way or the other.
pub proof fn lemma_bytes_lt_total(a: Seq<u8>, b: Seq<u8>)
    requires
        a != b,
    ensures
        bytes_lt(a, b) || bytes_lt(b, a),
    decreases a.len(),
{
    if a.len() > 0 && b.len() > 0 && a[0] == b[0] {
        if a.drop_first() == b.drop_first() {
            assert(a.drop_first().len() == a.len() - 1 && b.drop_first().len() == b.len() - 1);
            assert(a.len() == b.len());
            assert(a =~= b) by {
                assert forall|i: int| 0 <= i < a.len() implies a[i] == b[i] by {
                    if i > 0 {
                        assert(a[i] == a.drop_first()[i - 1]);
                        assert(b[i] == b.drop_first()[i - 1]);
                    }
                }
            }
        } else {
            lemma_bytes_lt_total(a.drop_first(), b.drop_first());
        }
    } else if a.len() == 0 && b.len() == 0 {
        assert(a =~= b);
    }
}

/// Whether byte string `a` precedes `b`.
fn bytes_less(a: &Vec<u8>, b: &Vec<u8>) -> (r: bool)
    ensures
        r == bytes_lt(a@, b@),
{
    let mut i: usize = 0;
    proof {
        assert(a@.skip(0) =~= a@);
        assert(b@.skip(0) =~= b@);
    }
    while i < a.len() && i < b.len()
        invariant
            i <= a@.len(),
            i <= b@.len(),
            bytes_lt(a@, b@) == bytes_lt(a@.skip(i as int), b@.skip(i as int)),
        decreases a@.len() - i,
    {
        if a[i] != b[i] {
            return a[i] < b[i];
        }
        proof {
            assert(a@.skip(i as int).drop_first() =~= a@.skip(i + 1));
            assert(b@.skip(i as int).drop_first() =~= b@.skip(i + 1));
        }
        i = i + 1;
    }
    i < b.len()
}

/// A component of a path: the root, `.`, `..`, or a named component with
/// its bytes.
#[derive(Debug)]
pub enum PathComponent {
    RootDir,
    CurDir,
    ParentDir,
    Normal(Vec<u8>),
}

/// A component as a rank and bytes. Components are ordered as std orders
/// them: the root before `.` before `..` before named components, and named
/// components by their bytes.
pub open spec fn component_view(c: PathComponent) -> (int, Seq<u8>) {
    match c {
        PathComponent::RootDir => (1, Seq::<u8>::empty()),
        PathComponent::CurDir => (2, Seq::<u8>::empty()),
        PathComponent::ParentDir => (3, Seq::<u8>::empty()),
        PathComponent::Normal(name) => (4, name@),
    }
}

/// The components of a path as ranks and bytes.
pub open spec fn components_view(p: Seq<PathComponent>) -> Seq<(int, Seq<u8>)> {
    p.map_values(|c: PathComponent| component_view(c))
}

/// Order of path components: by rank, then by bytes.
pub open spec fn component_lt(a: (int, Seq<u8>), b: (int, Seq<u8>)) -> bool {
    a.0 < b.0 || (a.0 == b.0 && bytes_lt(a.1, b.1))
}

/// Order of paths: lexicographic over their components.
pub open spec fn path_lt(a: Seq<(int, Seq<u8>)>, b: Seq<(int, Seq<u8>)>) -> bool
    decreases a.len(),
{
    if a.len() == 0 {
        b.len() > 0
    } else if b.len() == 0 {
        false
    } else if a[0] != b[0] {
        component_lt(a[0], b[0])
    } else {
        path_lt(a.drop_first(), b.drop_first())
    }
}

/// No component precedes itself.
pub proof fn lemma_component_lt_irreflexive(a: (int, Seq<u8>))
    ensures
        !component_lt(a, a),
{
    lemma_bytes_lt_irreflexive(a.1);
}

/// The component order is transitive.
pub proof fn lemma_component_lt_transitive(a: (int, Seq<u8>), b: (int, Seq<u8>), c: (int, Seq<u8>))
    requires
        component_lt(a, b),
        component_lt(b, c),
    ensures
        component_lt(a, c),
{
    if a.0 == b.0 && b.0 == c.0 {
        lemma_bytes_lt_transitive(a.1, b.1, c.1);
    }
}

/// Any two different components are ordered one way or the other.
pub proof fn lemma_component_lt_total(a: (int, Seq<u8>), b: (int, Seq<u8>))
    requires
        a != b,
    ensures
        component_lt(a, b) || component_lt(b, a),
{
    if a.0 == b.0 {
        lemma_bytes_lt_total(a.1, b.1);
    }
}

/// No path precedes itself.
pub proof fn lemma_path_lt_irreflexive(a: Seq<(int, Seq<u8>)>)
    ensures
        !path_lt(a, a),
    decreases a.len(),
{
    if a.len() > 0 {
        lemma_path_lt_irreflexive(a.drop_first());
    }
}

/// The path order is transitive.
pub proof fn lemma_path_lt_transitive(
    a: Seq<(int, Seq<u8>)>,
    b: Seq<(int, Seq<u8>)>,
    c: Seq<(int, Seq<u8>)>,
)
    requires
        path_lt(a, b),
        path_lt(b, c),
    ensures
        path_lt(a, c),
    decreases a.len(),
{
    if a.len() > 0 && b.len() > 0 && c.len() > 0 {
        if a[0] == b[0] && b[0] == c[0] {
            lemma_path_lt_transitive(a.drop_first(), b.drop_first(), c.drop_first());
        } else if a[0] != b[0] && b[0] != c[0] {
            lemma_component_lt_transitive(a[0], b[0], c[0]);
            if a[0] == c[0] {
                lemma_component_lt_irreflexive(a[0]);
            }
        }
    }
}

/// Any two different paths are ordered one way or the other.
pub proof fn lemma_path_lt_total(a: Seq<(int, Seq<u8>)>, b: Seq<(int, Seq<u8>)>)
    requires
        a != b,
    ensures
        path_lt(a, b) || path_lt(b, a),
    decreases a.len(),
{
    if a.len() > 0 && b.len() > 0 {
        if a[0] == b[0] {
            if a.drop_first() == b.drop_first() {
                assert(a.drop_first().len() == a.len() - 1 && b.drop_first().len() == b.len() - 1);
                assert(a.len() == b.len());
                assert(a =~= b) by {
                    assert forall|i: int| 0 <= i < a.len() implies a[i] == b[i] by {
                        if i > 0 {
                            assert(a[i] == a.drop_first()[i - 1]);
                            assert(b[i] == b.drop_first()[i - 1]);
                        }
                    }
                }
            } else {
                lemma_path_lt_total(a.drop_first(), b.drop_first());
            }
        } else {
            lemma_component_lt_total(a[0], b[0]);
        }
    } else if a.len() == 0 && b.len() == 0 {
        assert(a =~= b);
    }
}

/// The rank of a component in the component order.
fn component_rank(c: &PathComponent) -> (r: u8)
    ensures
        r as int == component_view(*c).0,
{
    match c {
        PathComponent::RootDir => 1,
        PathComponent::CurDir => 2,
        PathComponent::ParentDir => 3,
        PathComponent::Normal(_) => 4,
    }
}

/// Whether component `a` precedes component `b`.
fn component_less(a: &PathComponent, b: &PathComponent) -> (r: bool)
    ensures
        r == component_lt(component_view(*a), component_view(*b)),
{
    let ra = component_rank(a);
    let rb = component_rank(b);
    if ra != rb {
        return ra < rb;
    }
    match (a, b) {
        (PathComponent::Normal(x), PathComponent::Normal(y)) => bytes_less(x, y),
        _ => {
            proof {
                lemma_bytes_lt_irreflexive(Seq::<u8>::empty());
            }
            false
        },
    }
}

/// Whether path `a` precedes path `b`; both are given as their components.
fn path_less(a: &Vec<PathComponent>, b: &Vec<PathComponent>) -> (r: bool)
    ensures
        r == path_lt(components_view(a@), components_view(b@)),
{
    let ghost av = components_view(a@);
    let ghost bv = components_view(b@);
    let mut i: usize = 0;
    proof {
        assert(av.skip(0) =~= av);
        assert(bv.skip(0) =~= bv);
    }
    while i < a.len() && i < b.len()
        invariant
            av == components_view(a@),
            bv == components_view(b@),
            i <= a@.len(),
            i <= b@.len(),
            path_lt(av, bv) == path_lt(av.skip(i as int), bv.skip(i as int)),
        decreases a@.len() - i,
    {
        assert(av[i as int] == component_view(a@[i as int]));
        assert(bv[i as int] == component_view(b@[i as int]));
        if component_less(&a[i], &b[i]) {
            proof {
                lemma_component_lt_irreflexive(av[i as int]);
            }
            return true;
        }
        if component_less(&b[i], &a[i]) {
            proof {
                lemma_component_lt_irreflexive(av[i as int]);
            }
            return false;
        }
        proof {
            if av[i as int] != bv[i as int] {
                lemma_component_lt_total(av[i as int], bv[i as int]);
            }
            assert(av.skip(i as int).drop_first() =~= av.skip(i + 1));
            assert(bv.skip(i as int).drop_first() =~= bv.skip(i + 1));
        }
        i = i + 1;
    }
    i < b.len()
}

/// The index of the first of the paths in path order: the path that no other
/// precedes, and that precedes every path listed before it. `None` when there
/// are no paths.
pub fn first_by_path(paths: &[Vec<PathComponent>]) -> (first: Option<usize>)
    ensures
        first is None <==> paths@.len() == 0,
        first matches Some(i) ==> {
            &&& i < paths@.len()
            &&& forall|k: int| 0 <= k < paths@.len() ==> !path_lt(
                #[trigger] components_view(paths@[k]@),
                components_view(paths@[i as int]@),
            )
            &&& forall|k: int| 0 <= k < i ==> path_lt(
                components_view(paths@[i as int]@),
                #[trigger] components_view(paths@[k]@),
            )
        },
{
    let n = paths.len();
    if n == 0 {
        return None;
    }
    let mut best: usize = 0;
    proof {
        lemma_path_lt_irreflexive(components_view(paths@[0]@));
    }
    for j in 1..n
        invariant
            n == paths@.len(),
            best < j,
            forall|k: int| 0 <= k < j ==> !path_lt(
                #[trigger] components_view(paths@[k]@),
                components_view(paths@[best as int]@),
            ),
            forall|k: int| 0 <= k < best ==> path_lt(
                components_view(paths@[best as int]@),
                #[trigger] components_view(paths@[k]@),
            ),
    {
        let ghost pb = components_view(paths@[best as int]@);
        let ghost pj = components_view(paths@[j as int]@);
        if path_less(&paths[j], &paths[best]) {
            proof {
                assert forall|k: int| 0 <= k < j implies path_lt(
                    pj,
                    #[trigger] components_view(paths@[k]@),
                ) by {
                    let pk = components_view(paths@[k]@);
                    if k < best {
                        lemma_path_lt_transitive(pj, pb, pk);
                    } else if k > best {
                        if pk != pb {
                            lemma_path_lt_total(pk, pb);
                            lemma_path_lt_transitive(pj, pb, pk);
                        }
                    }
                }
                assert forall|k: int| 0 <= k < j + 1 implies !path_lt(
                    #[trigger] components_view(paths@[k]@),
                    pj,
                ) by {
                    let pk = components_view(paths@[k]@);
                    if k < j {
                        if path_lt(pk, pj) {
                            lemma_path_lt_transitive(pk, pj, pk);
                            lemma_path_lt_irreflexive(pk);
                        }
                    } else {
                        lemma_path_lt_irreflexive(pj);
                    }
                }
            }
            best = j;
        }
    }
    Some(best)
}

/// The typical keyboard keys are exactly the codes 1 to 11 (Esc, 1 to 9, 0)
/// and 15 to 18 (Tab, Q, W, E).
pub proof fn lemma_typical_keyboard_keys(code: u16)
    ensures
        is_typical_keyboard_key(code) <==> (1 <= code <= 11 || 15 <= code <= 18),
{
}

/// A device is a likely keyboard exactly when one of its keys has a code from
/// 1 to 11 or from 15 to 18; a device whose keys all lie outside these codes
/// is not taken for a keyboard.
pub proof fn lemma_likely_keyboard_codes(keys: Seq<u16>)
    ensures
        (exists|i: int| 0 <= i < keys.len() && is_typical_keyboard_key(#[trigger] keys[i])) <==> (
        exists|i: int| 0 <= i < keys.len() && (1 <= #[trigger] keys[i] <= 11 || 15 <= keys[i] <= 18)),
{
    if exists|i: int| 0 <= i < keys.len() && is_typical_keyboard_key(#[trigger] keys[i]) {
        let i = choose|i: int| 0 <= i < keys.len() && is_typical_keyboard_key(#[trigger] keys[i]);
        lemma_typical_keyboard_keys(keys[i]);
    }
    if exists|i: int| 0 <= i < keys.len() && (1 <= #[trigger] keys[i] <= 11 || 15 <= keys[i] <= 18) {
        let i = choose|i: int| 0 <= i < keys.len() && (1 <= #[trigger] keys[i] <= 11 || 15 <= keys[i] <= 18);
        lemma_typical_keyboard_keys(keys[i]);
        assert(is_typical_keyboard_key(keys[i]));
    }
}

/// Byte strings are ordered by their first differing byte: when `a` and `b`
/// agree before index `i` and differ at `i`, `a` comes first exactly when its
/// byte at `i` is the smaller.
pub proof fn lemma_bytes_lt_first_difference(a: Seq<u8>, b: Seq<u8>, i: int)
    requires
        0 <= i < a.len(),
        i < b.len(),
        forall|j: int| 0 <= j < i ==> a[j] == b[j],
        a[i] != b[i],
    ensures
        bytes_lt(a, b) <==> a[i] < b[i],
        bytes_lt(b, a) <==> b[i] < a[i],
    decreases i,
{
    if i > 0 {
        assert(a[0] == b[0]);
        assert forall|j: int| 0 <= j < i - 1 implies a.drop_first()[j] == b.drop_first()[j] by {
            assert(a[j + 1] == b[j + 1]);
        }
        lemma_bytes_lt_first_difference(a.drop_first(), b.drop_first(), i - 1);
    }
}

/// A proper prefix comes before the longer byte string.
pub proof fn lemma_bytes_lt_proper_prefix(a: Seq<u8>, b: Seq<u8>)
    requires
        a.len() < b.len(),
        forall|j: int| 0 <= j < a.len() ==> a[j] == b[j],
    ensures
        bytes_lt(a, b),
        !bytes_lt(b, a),
    decreases a.len(),
{
    if a.len() > 0 {
        assert(a[0] == b[0]);
        assert forall|j: int| 0 <= j < a.len() - 1 implies a.drop_first()[j] == b.drop_first()[j] by {
            assert(a[j + 1] == b[j + 1]);
        }
        lemma_bytes_lt_proper_prefix(a.drop_first(), b.drop_first());
    }
}

} // verus!
