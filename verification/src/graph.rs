//! Undirected link sets and their compressed adjacency.

use vstd::prelude::*;

verus! {

/// The `j`-th endpoint of a link list, walking the links in order and each link
/// from its source to its target.
pub open spec fn endpoint(links: Seq<(u32, u32)>, j: int) -> int {
    if j % 2 == 0 {
        links[j / 2].0 as int
    } else {
        links[j / 2].1 as int
    }
}

/// The links that touch node `v` among the first `j` endpoints, in link order.
/// A link from `v` to itself is listed twice.
pub open spec fn incident_upto(links: Seq<(u32, u32)>, v: int, j: nat) -> Seq<u32>
    decreases j,
{
    if j == 0 {
        Seq::empty()
    } else {
        let before = incident_upto(links, v, (j - 1) as nat);
        if endpoint(links, j - 1) == v {
            before.push(((j - 1) / 2) as u32)
        } else {
            before
        }
    }
}

/// The links that touch node `v`, in link order.
pub open spec fn incident(links: Seq<(u32, u32)>, v: int) -> Seq<u32> {
    incident_upto(links, v, 2 * links.len())
}

/// How many link endpoints sit at node `v`.
pub open spec fn degree(links: Seq<(u32, u32)>, v: int) -> nat {
    incident(links, v).len()
}

/// How many of the first `j` endpoints sit at a node below `v`.
pub open spec fn offset_upto(links: Seq<(u32, u32)>, v: int, j: nat) -> nat
    decreases v,
{
    if v <= 0 {
        0
    } else {
        offset_upto(links, v - 1, j) + incident_upto(links, v - 1, j).len()
    }
}

/// How many link endpoints sit at a node below `v`.
pub open spec fn offset(links: Seq<(u32, u32)>, v: int) -> nat {
    offset_upto(links, v, 2 * links.len())
}

/// Whether link `e` joins two of the nodes `0..n`.
pub open spec fn link_in_range(links: Seq<(u32, u32)>, n: int, e: int) -> bool {
    links[e].0 < n && links[e].1 < n
}

/// Whether every link joins two of the nodes `0..n`.
pub open spec fn in_range(links: Seq<(u32, u32)>, n: int) -> bool {
    forall|e: int| 0 <= e < links.len() ==> #[trigger] link_in_range(links, n, e)
}

/// Adjacency in compressed form: the links at node `v` are
/// `idx[ptr[v]..ptr[v + 1]]`.
pub struct Adjacency {
    pub ptr: Vec<u32>,
    pub idx: Vec<u32>,
}

impl Adjacency {
    /// Whether this is the adjacency of `links` over the nodes `0..n`.
    pub open spec fn represents(&self, links: Seq<(u32, u32)>, n: int) -> bool {
        &&& self.ptr@.len() == n + 1
        &&& self.idx@.len() == 2 * links.len()
        &&& forall|v: int| 0 <= v <= n ==> #[trigger] self.ptr@[v] == offset(links, v)
        &&& forall|v: int| 0 <= v < n ==> #[trigger] self.row(v) == incident(links, v)
    }

    /// The slice of `idx` that `ptr` assigns to node `v`.
    pub open spec fn row(&self, v: int) -> Seq<u32> {
        self.idx@.subrange(self.ptr@[v] as int, self.ptr@[v + 1] as int)
    }
}

proof fn lemma_incident_grows(links: Seq<(u32, u32)>, v: int, j: nat, k: nat)
    requires
        j <= k,
    ensures
        incident_upto(links, v, j).len() <= incident_upto(links, v, k).len(),
        incident_upto(links, v, k).len() <= k,
        incident_upto(links, v, j) =~= incident_upto(links, v, k).take(
            incident_upto(links, v, j).len() as int,
        ),
    decreases k,
{
    if j < k {
        lemma_incident_grows(links, v, j, (k - 1) as nat);
    } else if k > 0 {
        lemma_incident_grows(links, v, (j - 1) as nat, (k - 1) as nat);
    }
}

proof fn lemma_offset_monotone(links: Seq<(u32, u32)>, v: int, w: int, j: nat)
    requires
        0 <= v <= w,
    ensures
        offset_upto(links, v, j) <= offset_upto(links, w, j),
        v < w ==> offset_upto(links, v, j) + incident_upto(links, v, j).len() <= offset_upto(
            links,
            w,
            j,
        ),
    decreases w,
{
    if v < w {
        lemma_offset_monotone(links, v, w - 1, j);
    }
}

proof fn lemma_offset_step(links: Seq<(u32, u32)>, v: int, j: nat)
    requires
        j > 0,
        0 <= v,
    ensures
        0 <= endpoint(links, j - 1) < v ==> offset_upto(links, v, j) == offset_upto(
            links,
            v,
            (j - 1) as nat,
        ) + 1,
        endpoint(links, j - 1) >= v ==> offset_upto(links, v, j) == offset_upto(
            links,
            v,
            (j - 1) as nat,
        ),
    decreases v,
{
    if v > 0 {
        lemma_offset_step(links, v - 1, j);
    }
}

proof fn lemma_offset_zero(links: Seq<(u32, u32)>, v: int)
    ensures
        offset_upto(links, v, 0) == 0,
    decreases v,
{
    if v > 0 {
        lemma_offset_zero(links, v - 1);
    }
}

proof fn lemma_endpoint_in_range(links: Seq<(u32, u32)>, n: int, j: int)
    requires
        in_range(links, n),
        0 <= j < 2 * links.len(),
    ensures
        0 <= endpoint(links, j) < n,
{
    assert(link_in_range(links, n, j / 2));
}

proof fn lemma_offset_total(links: Seq<(u32, u32)>, n: int, j: nat)
    requires
        0 <= n,
        in_range(links, n),
        j <= 2 * links.len(),
    ensures
        offset_upto(links, n, j) == j,
    decreases j,
{
    if j == 0 {
        lemma_offset_zero(links, n);
    } else {
        lemma_offset_total(links, n, (j - 1) as nat);
        lemma_offset_step(links, n, j);
        lemma_endpoint_in_range(links, n, j - 1);
    }
}

/// Every link has two ends: the degrees of all nodes add up to twice the number
/// of links.
pub proof fn law_degree_sum(links: Seq<(u32, u32)>, n: int)
    requires
        0 <= n,
        in_range(links, n),
    ensures
        offset(links, n) == 2 * links.len(),
{
    lemma_offset_total(links, n, 2 * links.len());
}

/// The rows of an adjacency follow one another without gap or overlap: they start
/// at zero, each begins where the one before it ends, and together they hold
/// every end of every link.
pub proof fn law_rows_partition(links: Seq<(u32, u32)>, n: int, v: int)
    requires
        0 <= v < n,
        in_range(links, n),
    ensures
        offset(links, 0) == 0,
        offset(links, v + 1) == offset(links, v) + degree(links, v),
        offset(links, v + 1) <= offset(links, n),
        offset(links, n) == 2 * links.len(),
{
    law_degree_sum(links, n);
    lemma_offset_monotone(links, v + 1, n, 2 * links.len());
}

proof fn lemma_incident_contains(links: Seq<(u32, u32)>, v: int, e: int, j: nat)
    requires
        0 <= e < links.len() <= u32::MAX,
        j <= 2 * links.len(),
    ensures
        incident_upto(links, v, j).contains(e as u32) <==> (2 * e < j && endpoint(links, 2 * e)
            == v) || (2 * e + 1 < j && endpoint(links, 2 * e + 1) == v),
        forall|k: int|
            0 <= k < incident_upto(links, v, j).len() ==> 2 * (#[trigger] incident_upto(
                links,
                v,
                j,
            )[k]) < j,
    decreases j,
{
    if j > 0 {
        let before = incident_upto(links, v, (j - 1) as nat);
        let after = incident_upto(links, v, j);
        lemma_incident_contains(links, v, e, (j - 1) as nat);
        if endpoint(links, j - 1) == v {
            assert(after[before.len() as int] == ((j - 1) / 2) as u32);
            if before.contains(e as u32) {
                let k = choose|k: int| 0 <= k < before.len() && before[k] == e as u32;
                assert(after[k] == e as u32);
            }
            if after.contains(e as u32) && !before.contains(e as u32) {
                let k = choose|k: int| 0 <= k < after.len() && after[k] == e as u32;
                if k < before.len() {
                    assert(before[k] == e as u32);
                }
                assert(k == before.len());
            }
            assert forall|k: int| 0 <= k < after.len() implies 2 * (#[trigger] after[k]) < j by {
                if k < before.len() {
                    assert(after[k] == before[k]);
                }
            }
        }
    }
}

/// The row of a node lists exactly the links that have an end there.
pub proof fn law_row_lists_links(links: Seq<(u32, u32)>, v: int, e: int)
    requires
        0 <= e < links.len() <= u32::MAX,
    ensures
        incident(links, v).contains(e as u32) <==> links[e].0 == v || links[e].1 == v,
{
    lemma_incident_contains(links, v, e, 2 * links.len());
}

proof fn lemma_incident_sorted(links: Seq<(u32, u32)>, v: int, a: int, b: int, j: nat)
    requires
        links.len() <= u32::MAX,
        j <= 2 * links.len(),
        0 <= a <= b < incident_upto(links, v, j).len(),
    ensures
        incident_upto(links, v, j)[a] <= incident_upto(links, v, j)[b],
    decreases j,
{
    if j > 0 {
        let before = incident_upto(links, v, (j - 1) as nat);
        if b < before.len() {
            lemma_incident_sorted(links, v, a, b, (j - 1) as nat);
        } else if a < b {
            lemma_incident_contains(links, v, 0, (j - 1) as nat);
            assert(2 * before[a] < j - 1);
        }
    }
}

/// The row of a node lists its links in the order in which they were given.
pub proof fn law_row_in_order(links: Seq<(u32, u32)>, v: int, a: int, b: int)
    requires
        links.len() <= u32::MAX,
        0 <= a <= b < incident(links, v).len(),
    ensures
        incident(links, v)[a] <= incident(links, v)[b],
{
    lemma_incident_sorted(links, v, a, b, 2 * links.len());
}

/// The endpoint at position `j` of a link list.
fn endpoint_at(links: &Vec<(u32, u32)>, j: usize) -> (r: u32)
    requires
        j < 2 * links@.len(),
    ensures
        r == endpoint(links@, j as int),
{
    if j % 2 == 0 {
        links[j / 2].0
    } else {
        links[j / 2].1
    }
}

/// The index of the first link that leaves the nodes `0..n`, if there is one.
pub fn first_out_of_range(links: &Vec<(u32, u32)>, n: usize) -> (r: Option<usize>)
    ensures
        match r {
            Some(e) => {
                &&& e < links@.len()
                &&& !link_in_range(links@, n as int, e as int)
                &&& forall|d: int| 0 <= d < e ==> #[trigger] link_in_range(links@, n as int, d)
            },
            None => in_range(links@, n as int),
        },
{
    let mut e: usize = 0;
    while e < links.len()
        invariant
            e <= links@.len(),
            forall|d: int| 0 <= d < e ==> #[trigger] link_in_range(links@, n as int, d),
        decreases links@.len() - e,
    {
        let (s, t) = links[e];
        if s as usize >= n || t as usize >= n {
            return Some(e);
        }
        assert(link_in_range(links@, n as int, e as int));
        e += 1;
    }
    None
}

/// The degree of every node.
pub fn degrees(links: &Vec<(u32, u32)>, n: usize) -> (count: Vec<u32>)
    requires
        in_range(links@, n as int),
        2 * links@.len() <= u32::MAX,
    ensures
        count@.len() == n,
        forall|v: int| 0 <= v < n ==> #[trigger] count@[v] == degree(links@, v),
{
    let mut count: Vec<u32> = vec![0u32; n];
    let ends: usize = 2 * links.len();
    let mut j: usize = 0;
    while j < ends
        invariant
            j <= ends,
            ends == 2 * links@.len(),
            2 * links@.len() <= u32::MAX,
            in_range(links@, n as int),
            count@.len() == n,
            forall|v: int|
                0 <= v < n ==> #[trigger] count@[v] == incident_upto(links@, v, j as nat).len(),
        decreases ends - j,
    {
        let v: usize = endpoint_at(links, j) as usize;
        proof {
            lemma_endpoint_in_range(links@, n as int, j as int);
            lemma_incident_grows(links@, v as int, 0, j as nat);
        }
        count[v] = count[v] + 1;
        j += 1;
    }
    count
}

/// The compressed adjacency of a link list over the nodes `0..n`.
pub fn adjacency(links: &Vec<(u32, u32)>, n: usize) -> (r: Adjacency)
    requires
        in_range(links@, n as int),
        2 * links@.len() <= u32::MAX,
        n < usize::MAX,
    ensures
        r.represents(links@, n as int),
{
    let count: Vec<u32> = degrees(links, n);
    let ends: usize = 2 * links.len();
    let mut ptr: Vec<u32> = vec![0u32];
    let mut v: usize = 0;
    while v < n
        invariant
            v <= n,
            ends == 2 * links@.len(),
            ends <= u32::MAX,
            in_range(links@, n as int),
            count@.len() == n,
            forall|w: int| 0 <= w < n ==> #[trigger] count@[w] == degree(links@, w),
            ptr@.len() == v + 1,
            forall|w: int| 0 <= w <= v ==> #[trigger] ptr@[w] == offset(links@, w),
        decreases n - v,
    {
        proof {
            law_degree_sum(links@, n as int);
            lemma_offset_monotone(links@, v as int + 1, n as int, ends as nat);
            assert(ptr@[v as int] == offset(links@, v as int));
            assert(count@[v as int] == degree(links@, v as int));
        }
        let next: u32 = ptr[v] + count[v];
        ptr.push(next);
        v += 1;
    }
    let mut fill: Vec<u32> = vec![0u32; n];
    let mut idx: Vec<u32> = vec![0u32; ends];
    let mut j: usize = 0;
    while j < ends
        invariant
            j <= ends,
            ends == 2 * links@.len(),
            ends <= u32::MAX,
            in_range(links@, n as int),
            ptr@.len() == n + 1,
            forall|w: int| 0 <= w <= n ==> #[trigger] ptr@[w] == offset(links@, w),
            fill@.len() == n,
            idx@.len() == ends,
            forall|w: int|
                0 <= w < n ==> #[trigger] fill@[w] == incident_upto(links@, w, j as nat).len(),
            forall|w: int, k: int|
                0 <= w < n && 0 <= k < incident_upto(links@, w, j as nat).len()
                    ==> idx@[offset(links@, w) + k] == #[trigger] incident_upto(
                    links@,
                    w,
                    j as nat,
                )[k],
        decreases ends - j,
    {
        let v: usize = endpoint_at(links, j) as usize;
        let ghost old_idx = idx@;
        proof {
            lemma_endpoint_in_range(links@, n as int, j as int);
            lemma_incident_grows(links@, v as int, (j + 1) as nat, ends as nat);
            law_degree_sum(links@, n as int);
            lemma_offset_monotone(links@, v as int, n as int, ends as nat);
            assert(ptr@[v as int] == offset(links@, v as int));
            assert(fill@[v as int] == incident_upto(links@, v as int, j as nat).len());
        }
        let at: usize = (ptr[v] + fill[v]) as usize;
        idx[at] = (j / 2) as u32;
        fill[v] = fill[v] + 1;
        proof {
            assert forall|w: int, k: int|
                0 <= w < n && 0 <= k < incident_upto(
                    links@,
                    w,
                    (j + 1) as nat,
                ).len() implies idx@[offset(links@, w) + k] == #[trigger] incident_upto(
                links@,
                w,
                (j + 1) as nat,
            )[k] by {
                let len = incident_upto(links@, w, j as nat).len();
                lemma_incident_grows(links@, w, (j + 1) as nat, ends as nat);
                lemma_offset_monotone(links@, w, n as int, ends as nat);
                if w < v {
                    lemma_offset_monotone(links@, w, v as int, ends as nat);
                } else if v < w {
                    lemma_offset_monotone(links@, v as int, w, ends as nat);
                }
                if k < len {
                    assert(idx@[offset(links@, w) + k] == old_idx[offset(links@, w) + k]);
                    assert(old_idx[offset(links@, w) + k] == incident_upto(links@, w, j as nat)[k]);
                }
            }
        }
        j += 1;
    }
    let r = Adjacency { ptr, idx };
    proof {
        law_degree_sum(links@, n as int);
        assert forall|v: int| 0 <= v < n implies #[trigger] r.row(v) == incident(links@, v) by {
            lemma_offset_monotone(links@, v + 1, n as int, ends as nat);
            assert(r.ptr@[v] == offset(links@, v));
            assert(r.ptr@[v + 1] == offset(links@, v + 1));
            assert(offset(links@, v + 1) == offset(links@, v) + degree(links@, v));
            assert forall|k: int| 0 <= k < degree(links@, v) implies r.row(v)[k] == incident(
                links@,
                v,
            )[k] by {
                assert(r.row(v)[k] == r.idx@[offset(links@, v) + k]);
            }
            assert(r.row(v) =~= incident(links@, v));
        }
    }
    r
}

} // verus!
