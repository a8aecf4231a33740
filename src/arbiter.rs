use vstd::prelude::*;

verus! {

/// The key of an arbiter: the unordered pair of body ids, lower id first.
#[derive(Debug, Clone, Copy, PartialEq, Eq, Structural)]
pub struct ArbiterKey {
    pub low: usize,
    pub high: usize,
}

/// The key of the pair `{a, b}`, whichever of the two is named first.
pub open spec fn key_of(a: usize, b: usize) -> ArbiterKey {
    if a <= b {
        ArbiterKey { low: a, high: b }
    } else {
        ArbiterKey { low: b, high: a }
    }
}

impl ArbiterKey {
    /// The canonical key of the pair `{a, b}`.
    pub fn new(a: usize, b: usize) -> (r: ArbiterKey)
        ensures
            r == key_of(a, b),
            r.low <= r.high,
    {
        if a <= b {
            ArbiterKey { low: a, high: b }
        } else {
            ArbiterKey { low: b, high: a }
        }
    }
}

/// Which geometric features of the two polygons produced a contact point.
#[derive(Debug, Clone, Copy, PartialEq, Eq, Structural)]
pub enum FeatureId {
    /// A reference edge clipped against an incident edge.
    EdgeEdge { reference_edge: usize, incident_edge: usize },
    /// A vertex of each body.
    VertexVertex { vertex_a: usize, vertex_b: usize },
    /// A vertex of one body against an edge of the other.
    VertexEdge { vertex: usize, edge: usize },
}

/// `m` is the first index of `f` in `prev`, or `None` when `f` is absent.
pub open spec fn is_first_match(prev: Seq<FeatureId>, f: FeatureId, m: Option<usize>) -> bool {
    match m {
        Some(j) => j < prev.len() && prev[j as int] == f && forall|k: int|
            0 <= k < j ==> prev[k] != f,
        None => forall|k: int| 0 <= k < prev.len() ==> prev[k] != f,
    }
}

/// The index of the first contact of `prev` with feature `f`, if any.
pub fn find_feature(prev: &Vec<FeatureId>, f: FeatureId) -> (r: Option<usize>)
    ensures
        is_first_match(prev@, f, r),
{
    let mut k: usize = 0;
    while k < prev.len()
        invariant
            k <= prev@.len(),
            forall|i: int| 0 <= i < k ==> prev@[i] != f,
        decreases prev@.len() - k,
    {
        if prev[k] == f {
            return Some(k);
        }
        k = k + 1;
    }
    None
}

/// For each contact of the new manifold, the previous contact whose
/// accumulated impulses it inherits (warm start), matched by feature id; a
/// contact with no match starts from zero impulse.
pub fn match_features(prev: &Vec<FeatureId>, current: &Vec<FeatureId>) -> (r: Vec<Option<usize>>)
    ensures
        r@.len() == current@.len(),
        forall|i: int| 0 <= i < r@.len() ==> is_first_match(prev@, current@[i], #[trigger] r@[i]),
{
    let mut r: Vec<Option<usize>> = Vec::new();
    let mut i: usize = 0;
    while i < current.len()
        invariant
            i <= current@.len(),
            r@.len() == i,
            forall|t: int| 0 <= t < i ==> is_first_match(prev@, current@[t], #[trigger] r@[t]),
        decreases current@.len() - i,
    {
        let m = find_feature(prev, current[i]);
        r.push(m);
        i = i + 1;
    }
    r
}

/// A link to a previous contact, if any, stays within `n` contacts.
pub open spec fn index_within(m: Option<usize>, n: nat) -> bool {
    match m {
        Some(j) => j < n,
        None => true,
    }
}

/// The impulse a contact inherits: that of the matched previous contact, or
/// `zero` when it has no match.
pub open spec fn carried<T>(prev: Seq<T>, m: Option<usize>, zero: T) -> T {
    match m {
        Some(j) => prev[j as int],
        None => zero,
    }
}

/// Warm start: the accumulated impulses of the new manifold, each copied from
/// the previous contact that `links` names, or `zero` for a contact seen for
/// the first time.
pub fn carry_impulses<T: Copy>(prev: &Vec<T>, links: &Vec<Option<usize>>, zero: T) -> (r: Vec<T>)
    requires
        forall|i: int| 0 <= i < links@.len() ==> index_within(#[trigger] links@[i], prev@.len()),
    ensures
        r@.len() == links@.len(),
        forall|i: int| 0 <= i < r@.len() ==> #[trigger] r@[i] == carried(prev@, links@[i], zero),
{
    let mut r: Vec<T> = Vec::new();
    let mut i: usize = 0;
    while i < links.len()
        invariant
            i <= links@.len(),
            r@.len() == i,
            forall|t: int| 0 <= t < links@.len() ==> index_within(#[trigger] links@[t], prev@.len()),
            forall|t: int| 0 <= t < i ==> #[trigger] r@[t] == carried(prev@, links@[t], zero),
        decreases links@.len() - i,
    {
        let v = match links[i] {
            Some(j) => prev[j],
            None => zero,
        };
        r.push(v);
        i = i + 1;
    }
    r
}

/// The persistent record of one colliding pair: its key and the feature ids
/// of its current contact manifold.
pub struct ArbiterEntry {
    pub key: ArbiterKey,
    pub features: Vec<FeatureId>,
}

impl View for ArbiterEntry {
    type V = (ArbiterKey, Seq<FeatureId>);

    open spec fn view(&self) -> (ArbiterKey, Seq<FeatureId>) {
        (self.key, self.features@)
    }
}

/// Whether some record of `s` has key `k`.
pub open spec fn has_key(s: Seq<(ArbiterKey, Seq<FeatureId>)>, k: ArbiterKey) -> bool {
    exists|i: int| 0 <= i < s.len() && (#[trigger] s[i]).0 == k
}

/// No two records share a key.
pub open spec fn keys_unique(s: Seq<(ArbiterKey, Seq<FeatureId>)>) -> bool {
    forall|i: int, j: int| 0 <= i < s.len() && 0 <= j < s.len() && i != j ==> (#[trigger] s[i]).0 != (
    #[trigger] s[j]).0
}

/// The cache of active arbiters, one per colliding pair, in order of first
/// contact.
pub struct ArbiterCache {
    entries: Vec<ArbiterEntry>,
}

impl View for ArbiterCache {
    type V = Seq<(ArbiterKey, Seq<FeatureId>)>;

    closed spec fn view(&self) -> Seq<(ArbiterKey, Seq<FeatureId>)> {
        self.entries@.map_values(|e: ArbiterEntry| e@)
    }
}

impl ArbiterCache {
    /// Each pair has at most one arbiter, and no arbiter is empty.
    pub open spec fn wf(&self) -> bool {
        &&& keys_unique(self@)
        &&& forall|i: int| 0 <= i < self@.len() ==> (#[trigger] self@[i]).1.len() > 0
    }

    /// An empty cache.
    pub fn new() -> (r: ArbiterCache)
        ensures
            r@ == Seq::<(ArbiterKey, Seq<FeatureId>)>::empty(),
            r.wf(),
    {
        let r = ArbiterCache { entries: Vec::new() };
        assert(r@ =~= Seq::<(ArbiterKey, Seq<FeatureId>)>::empty());
        r
    }

    /// The number of active arbiters.
    pub fn len(&self) -> (r: usize)
        ensures
            r == self@.len(),
    {
        self.entries.len()
    }

    /// The position of the arbiter with key `k`, if there is one.
    pub fn position(&self, k: ArbiterKey) -> (r: Option<usize>)
        requires
            self.wf(),
        ensures
            match r {
                Some(i) => i < self@.len() && self@[i as int].0 == k,
                None => !has_key(self@, k),
            },
    {
        let mut i: usize = 0;
        while i < self.entries.len()
            invariant
                i <= self@.len(),
                self@.len() == self.entries@.len(),
                forall|t: int| 0 <= t < i ==> (#[trigger] self@[t]).0 != k,
            decreases self@.len() - i,
        {
            if self.entries[i].key == k {
                return Some(i);
            }
            i = i + 1;
        }
        None
    }

    /// Records this step's manifold of the pair `{a, b}`. An empty manifold
    /// evicts the pair's arbiter; otherwise the arbiter is created or its
    /// manifold replaced. The result maps each new contact to the previous
    /// contact it inherits impulses from (none for a new arbiter).
    pub fn update(&mut self, a: usize, b: usize, contacts: Vec<FeatureId>) -> (r: Vec<
        Option<usize>,
    >)
        requires
            old(self).wf(),
        ensures
            final(self).wf(),
            r@.len() == contacts@.len(),
            contacts@.len() == 0 ==> !has_key(final(self)@, key_of(a, b)),
            contacts@.len() == 0 && !has_key(old(self)@, key_of(a, b)) ==> final(self)@ == old(
                self,
            )@,
            contacts@.len() > 0 ==> has_key(final(self)@, key_of(a, b)),
            forall|i: int|
                0 <= i < old(self)@.len() && (#[trigger] old(
                    self,
                )@[i]).0 == key_of(a, b) ==> {
                    &&& contacts@.len() == 0 ==> final(self)@ == old(self)@.remove(i)
                    &&& contacts@.len() > 0 ==> final(self)@ == old(self)@.update(
                        i,
                        (key_of(a, b), contacts@),
                    )
                    &&& forall|t: int|
                        0 <= t < r@.len() ==> is_first_match(
                            old(self)@[i].1,
                            contacts@[t],
                            #[trigger] r@[t],
                        )
                },
            contacts@.len() > 0 && !has_key(old(self)@, key_of(a, b)) ==> {
                &&& final(self)@ == old(self)@.push((key_of(a, b), contacts@))
                &&& forall|t: int| 0 <= t < r@.len() ==> (#[trigger] r@[t]) == None::<usize>
            },
    {
        let k = ArbiterKey::new(a, b);
        let ghost s0 = self@;
        let pos = self.position(k);
        match pos {
            Some(i) => {
                assert(forall|j: int| 0 <= j < s0.len() && (#[trigger] s0[j]).0 == k ==> j == i);
                if contacts.len() == 0 {
                    self.entries.remove(i);
                    assert(self@ =~= s0.remove(i as int));
                    assert(!has_key(self@, k)) by {
                        assert forall|j: int| 0 <= j < self@.len() implies (#[trigger] self@[j]).0
                            != k by {
                            if j < i {
                                assert(self@[j] == s0[j]);
                            } else {
                                assert(self@[j] == s0[j + 1]);
                            }
                        }
                    }
                    assert(keys_unique(self@)) by {
                        assert forall|x: int, y: int|
                            0 <= x < self@.len() && 0 <= y < self@.len() && x != y implies (
                            #[trigger] self@[x]).0 != (#[trigger] self@[y]).0 by {
                            let xx = if x < i { x } else { x + 1 };
                            let yy = if y < i { y } else { y + 1 };
                            assert(self@[x] == s0[xx]);
                            assert(self@[y] == s0[yy]);
                        }
                    }
                    assert forall|j: int| 0 <= j < self@.len() implies (#[trigger] self@[j]).1.len()
                        > 0 by {
                        if j < i {
                            assert(self@[j] == s0[j]);
                        } else {
                            assert(self@[j] == s0[j + 1]);
                        }
                    }
                    Vec::new()
                } else {
                    let m = match_features(&self.entries[i].features, &contacts);
                    self.entries[i] = ArbiterEntry { key: k, features: contacts };
                    assert(self@ =~= s0.update(i as int, (k, contacts@)));
                    assert(has_key(self@, k)) by {
                        assert(self@[i as int].0 == k);
                    }
                    m
                }
            },
            None => {
                if contacts.len() == 0 {
                    Vec::new()
                } else {
                    let n = contacts.len();
                    self.entries.push(ArbiterEntry { key: k, features: contacts });
                    assert(self@ =~= s0.push((k, contacts@)));
                    assert(has_key(self@, k)) by {
                        assert(self@[s0.len() as int].0 == k);
                    }
                    let mut r: Vec<Option<usize>> = Vec::new();
                    let mut t: usize = 0;
                    while t < n
                        invariant
                            t <= n,
                            r@.len() == t,
                            forall|u: int| 0 <= u < t ==> (#[trigger] r@[u]) == None::<usize>,
                        decreases n - t,
                    {
                        r.push(None);
                        t = t + 1;
                    }
                    r
                }
            },
        }
    }
}

/// One of the two bodies of a colliding pair.
#[derive(Debug, Clone, Copy, PartialEq, Eq, Structural)]
pub enum Side {
    A,
    B,
}

/// How the deepest face separation of body A compares to that of body B.
#[derive(Debug, Clone, Copy, PartialEq, Eq, Structural)]
pub enum SeparationOrder {
    ALess,
    Equal,
    AGreater,
}

/// The body that owns the reference face: the one whose best face has the
/// greater separation (the least penetration); on a tie, the body with the
/// lower id, so that the choice does not depend on the order of the pair.
pub open spec fn reference_side_spec(order: SeparationOrder, id_a: usize, id_b: usize) -> Side {
    match order {
        SeparationOrder::AGreater => Side::A,
        SeparationOrder::ALess => Side::B,
        SeparationOrder::Equal => if id_a <= id_b {
            Side::A
        } else {
            Side::B
        },
    }
}

/// Chooses the body that owns the reference face.
pub fn reference_side(order: SeparationOrder, id_a: usize, id_b: usize) -> (r: Side)
    ensures
        r == reference_side_spec(order, id_a, id_b),
{
    match order {
        SeparationOrder::AGreater => Side::A,
        SeparationOrder::ALess => Side::B,
        SeparationOrder::Equal => if id_a <= id_b {
            Side::A
        } else {
            Side::B
        },
    }
}

/// The order in which two bodies are discovered does not change the key of
/// their arbiter.
pub proof fn lemma_key_order_independent(a: usize, b: usize)
    ensures
        key_of(a, b) == key_of(b, a),
{
}

/// Swapping the two bodies of a pair (which reverses the comparison of their
/// separations) picks the same body as owner of the reference face.
pub proof fn lemma_reference_side_order_independent(order: SeparationOrder, id_a: usize, id_b: usize)
    requires
        id_a != id_b,
    ensures
        reference_side_spec(order, id_a, id_b) == Side::A <==> reference_side_spec(
            reverse_order(order),
            id_b,
            id_a,
        ) == Side::B,
{
}

/// The comparison seen from the other body.
pub open spec fn reverse_order(order: SeparationOrder) -> SeparationOrder {
    match order {
        SeparationOrder::ALess => SeparationOrder::AGreater,
        SeparationOrder::Equal => SeparationOrder::Equal,
        SeparationOrder::AGreater => SeparationOrder::ALess,
    }
}

} // verus!
