//! Bookkeeping over the intersections that one ray makes with a scene.
//!
//! The ray parameter `t` of each intersection is handed over as an order key:
//! an `i64` that orders as `t` does and is non-negative exactly when `t` is
//! (for an `f64`, its bit pattern with the low 63 bits flipped when the sign
//! bit is set). The object that an intersection lies on is handed over as its
//! index in the scene's object list.
use vstd::prelude::*;

verus! {

/// `keys[i]` is the hit: the first of the smallest non-negative keys.
pub open spec fn is_hit(keys: Seq<i64>, i: int) -> bool {
    &&& 0 <= i < keys.len()
    &&& keys[i] >= 0
    &&& forall|j: int| 0 <= j < keys.len() && keys[j] >= 0 ==> keys[i] <= keys[j]
    &&& forall|j: int| 0 <= j < i && keys[j] >= 0 ==> keys[i] < keys[j]
}

/// Every key is negative: the ray sees nothing in front of it.
pub open spec fn all_behind(keys: Seq<i64>) -> bool {
    forall|j: int| 0 <= j < keys.len() ==> keys[j] < 0
}

/// Selects the visible intersection: the one with the smallest non-negative
/// key, the earliest of them where several tie. `None` where the list is
/// empty or every key is negative.
pub fn hit(keys: &[i64]) -> (r: Option<usize>)
    ensures
        r is None <==> all_behind(keys@),
        r matches Some(i) ==> is_hit(keys@, i as int),
{
    let mut best: Option<usize> = None;
    let mut i: usize = 0;
    while i < keys.len()
        invariant
            i <= keys.len(),
            best is None ==> forall|j: int| 0 <= j < i ==> keys@[j] < 0,
            best matches Some(b) ==> {
                &&& b < i
                &&& keys@[b as int] >= 0
                &&& forall|j: int| 0 <= j < i && keys@[j] >= 0 ==> keys@[b as int] <= keys@[j]
                &&& forall|j: int| 0 <= j < b && keys@[j] >= 0 ==> keys@[b as int] < keys@[j]
            },
        decreases keys.len() - i,
    {
        if keys[i] >= 0 {
            match best {
                None => {
                    best = Some(i);
                },
                Some(b) => {
                    if keys[i] < keys[b] {
                        best = Some(i);
                    }
                },
            }
        }
        i = i + 1;
    }
    best
}

/// Index `i` comes before index `j` in the sorted order: by key, and by
/// position where the keys are equal.
pub open spec fn goes_before(keys: Seq<i64>, i: int, j: int) -> bool {
    keys[i] < keys[j] || (keys[i] == keys[j] && i < j)
}

/// `order` lists indices below `n`, each strictly after the one before it.
pub open spec fn is_sorted_order(keys: Seq<i64>, order: Seq<usize>, n: int) -> bool {
    &&& forall|a: int| 0 <= a < order.len() ==> order[a] < n
    &&& forall|a: int, b: int|
        0 <= a < b < order.len() ==> goes_before(keys, order[a] as int, order[b] as int)
}

/// The order in which the intersections lie along the ray: a permutation of
/// the positions of `keys` that lists them by ascending key, and keeps the
/// given order among equal keys (a stable sort).
pub fn sort_order(keys: &[i64]) -> (order: Vec<usize>)
    ensures
        order@.len() == keys@.len(),
        forall|j: usize| j < keys@.len() ==> order@.contains(j),
        is_sorted_order(keys@, order@, keys@.len() as int),
{
    let mut order: Vec<usize> = Vec::new();
    let mut i: usize = 0;
    while i < keys.len()
        invariant
            i <= keys.len(),
            order@.len() == i,
            forall|j: usize| j < i ==> order@.contains(j),
            is_sorted_order(keys@, order@, i as int),
        decreases keys.len() - i,
    {
        // Everything already placed comes before `i` unless its key is larger.
        let mut p: usize = order.len();
        while p > 0 && keys[order[p - 1]] > keys[i]
            invariant
                p <= order@.len(),
                order@.len() == i,
                i < keys.len(),
                is_sorted_order(keys@, order@, i as int),
                forall|a: int| p <= a < order@.len() ==> keys@[order@[a] as int] > keys@[i as int],
            decreases p,
        {
            p = p - 1;
        }
        proof {
            if p > 0 {
                let q = (p - 1) as int;
                assert(keys@[order@[q] as int] <= keys@[i as int]);
                assert forall|a: int| 0 <= a < p implies goes_before(
                    keys@,
                    order@[a] as int,
                    i as int,
                ) by {
                    if a < q {
                        assert(goes_before(keys@, order@[a] as int, order@[q] as int));
                    }
                }
            }
        }
        let ghost before = order@;
        order.insert(p, i);
        proof {
            assert forall|j: usize| j <= i implies order@.contains(j) by {
                if j < i {
                    assert(before.contains(j));
                    let a = choose|a: int| 0 <= a < before.len() && before[a] == j;
                    if a < p {
                        assert(order@[a] == j);
                    } else {
                        assert(order@[a + 1] == j);
                    }
                } else {
                    assert(order@[p as int] == i);
                }
            }
            assert forall|a: int, b: int| 0 <= a < b < order@.len() implies goes_before(
                keys@,
                order@[a] as int,
                order@[b] as int,
            ) by {
                if b < p {
                    assert(goes_before(keys@, before[a] as int, before[b] as int));
                } else if b == p {
                } else if a < p {
                    assert(goes_before(keys@, before[a] as int, before[b - 1] as int));
                } else if a == p {
                } else {
                    assert(goes_before(keys@, before[a - 1] as int, before[b - 1] as int));
                }
            }
        }
        i = i + 1;
    }
    order
}

/// Position of the first `id` in `s` at or after `i`; -1 where there is none.
pub open spec fn find_from(s: Seq<usize>, id: usize, i: int) -> int
    decreases s.len() - i,
{
    if i < 0 || i >= s.len() {
        -1
    } else if s[i] == id {
        i
    } else {
        find_from(s, id, i + 1)
    }
}

/// Crossing the surface of `id`: where `id` is in the stack `s` the ray
/// leaves it (the first entry of `id` goes), else the ray enters it (`id`
/// goes on top).
pub open spec fn toggle(s: Seq<usize>, id: usize) -> Seq<usize> {
    let p = find_from(s, id, 0);
    if p < 0 {
        s.push(id)
    } else {
        s.remove(p)
    }
}

/// The objects that the ray is inside after passing the first `k`
/// intersections, innermost last.
pub open spec fn containers(objects: Seq<usize>, k: nat) -> Seq<usize>
    decreases k,
{
    if k == 0 || k > objects.len() {
        Seq::empty()
    } else {
        toggle(containers(objects, (k - 1) as nat), objects[k - 1])
    }
}

/// The innermost object of a containment stack; `None` for empty space.
pub open spec fn innermost(s: Seq<usize>) -> Option<usize> {
    if s.len() == 0 {
        None
    } else {
        Some(s.last())
    }
}

proof fn lemma_find_from_none(s: Seq<usize>, id: usize, i: int)
    requires
        0 <= i <= s.len(),
        forall|j: int| i <= j < s.len() ==> s[j] != id,
    ensures
        find_from(s, id, i) == -1,
    decreases s.len() - i,
{
    if i < s.len() {
        lemma_find_from_none(s, id, i + 1);
    }
}

/// The media on both sides of the surface crossed at position `at` of the
/// sorted intersections `objects`: the innermost object that the ray is in
/// just before it (whose refractive index is n1) and just after it (n2).
/// `None` stands for empty space.
pub fn media_at(objects: &[usize], at: usize) -> (r: (Option<usize>, Option<usize>))
    requires
        at < objects@.len(),
    ensures
        r.0 == innermost(containers(objects@, at as nat)),
        r.1 == innermost(containers(objects@, (at + 1) as nat)),
{
    let mut stack: Vec<usize> = Vec::new();
    let mut k: usize = 0;
    while k < at
        invariant
            k <= at < objects@.len(),
            stack@ == containers(objects@, k as nat),
        decreases at - k,
    {
        pass_surface(&mut stack, objects[k]);
        k = k + 1;
    }
    let leaving = top_of(&stack);
    pass_surface(&mut stack, objects[at]);
    let entering = top_of(&stack);
    (leaving, entering)
}

fn top_of(stack: &Vec<usize>) -> (r: Option<usize>)
    ensures
        r == innermost(stack@),
{
    if stack.len() == 0 {
        None
    } else {
        Some(stack[stack.len() - 1])
    }
}

fn pass_surface(stack: &mut Vec<usize>, id: usize)
    ensures
        final(stack)@ == toggle(old(stack)@, id),
{
    let mut i: usize = 0;
    while i < stack.len()
        invariant
            i <= stack@.len(),
            stack@ == old(stack)@,
            forall|j: int| 0 <= j < i ==> stack@[j] != id,
            find_from(stack@, id, 0) == find_from(stack@, id, i as int),
        decreases stack.len() - i,
    {
        if stack[i] == id {
            stack.remove(i);
            return;
        }
        i = i + 1;
    }
    proof {
        lemma_find_from_none(stack@, id, 0);
    }
    stack.push(id);
}

} // verus!
