//! The filtered view.
//!
//! The filter is a type parameter: [`KeepAll`] is zero-sized and its probes
//! fold away.

use vstd::prelude::*;

use crate::adj::{EdgeRef, FilterEdges, FilterIncident, FilterVertices, Incident};
use crate::bound::{EdgeBound, VertexBound};
use crate::dir::HasDir;
use crate::error::PropError;
use crate::graph::{Bidirectional, EdgeList, Endpoints, GraphBase, GraphRef, VertexList};
use crate::ids::{EdgeId, GraphId, VertexId};
use crate::walk::Walk;

verus! {

/// A predicate over both identifier spaces.
pub trait Filter: Copy + Send + Sync {
    /// `true` when this filter keeps everything, letting every probe fold away.
    const TRIVIAL: bool;

    /// Whether `v` survives.
    spec fn keeps_v(self, v: VertexId) -> bool;

    /// Whether `e` survives.
    spec fn keeps_e(self, e: EdgeId) -> bool;

    /// A filter that says it keeps everything does.
    proof fn trivial_keeps_all(self)
        ensures
            Self::TRIVIAL ==> forall|v: VertexId| #[trigger] self.keeps_v(v),
            Self::TRIVIAL ==> forall|e: EdgeId| #[trigger] self.keeps_e(e),
    ;

    /// Whether `v` survives.
    fn keep_vertex(self, v: VertexId) -> (r: bool)
        ensures
            r == self.keeps_v(v),
    ;

    /// Whether `e` survives.
    fn keep_edge(self, e: EdgeId) -> (r: bool)
        ensures
            r == self.keeps_e(e),
    ;
}

/// The trivial filter. Zero-sized.
#[derive(Clone, Copy, Default, Debug)]
pub struct KeepAll;

impl Filter for KeepAll {
    const TRIVIAL: bool = true;

    open spec fn keeps_v(self, v: VertexId) -> bool {
        true
    }

    open spec fn keeps_e(self, e: EdgeId) -> bool {
        true
    }

    proof fn trivial_keeps_all(self) {
    }

    #[inline]
    fn keep_vertex(self, v: VertexId) -> (r: bool) {
        true
    }

    #[inline]
    fn keep_edge(self, e: EdgeId) -> (r: bool) {
        true
    }
}

/// Whether a mask keeps index `i`: non-zero keeps, and an index outside the
/// mask is filtered out.
pub open spec fn mask_keeps(mask: Seq<u8>, i: nat) -> bool {
    i < mask.len() && mask[i as int] != 0
}

/// A filter backed by two byte masks.
#[derive(Debug)]
pub struct MaskFilter<'m> {
    pub(crate) vmask: &'m [u8],
    pub(crate) emask: &'m [u8],
}

impl<'m> Clone for MaskFilter<'m> {
    #[inline]
    fn clone(&self) -> (r: Self)
        ensures
            r == *self,
    {
        *self
    }
}

impl<'m> Copy for MaskFilter<'m> {

}

impl<'m> MaskFilter<'m> {
    /// The vertex mask.
    pub open(crate) spec fn vertex_mask(self) -> Seq<u8> {
        self.vmask@
    }

    /// The edge mask.
    pub open(crate) spec fn edge_mask(self) -> Seq<u8> {
        self.emask@
    }
}

impl<'m> Filter for MaskFilter<'m> {
    const TRIVIAL: bool = false;

    open spec fn keeps_v(self, v: VertexId) -> bool {
        mask_keeps(self.vertex_mask(), v@)
    }

    open spec fn keeps_e(self, e: EdgeId) -> bool {
        mask_keeps(self.edge_mask(), e@)
    }

    proof fn trivial_keeps_all(self) {
    }

    /// Non-zero keeps. Out of range is filtered out, deterministically.
    #[inline]
    fn keep_vertex(self, v: VertexId) -> (r: bool) {
        v.index() < self.vmask.len() && self.vmask[v.index()] != 0
    }

    /// Non-zero keeps. Out of range is filtered out, deterministically.
    #[inline]
    fn keep_edge(self, e: EdgeId) -> (r: bool) {
        e.index() < self.emask.len() && self.emask[e.index()] != 0
    }
}

/// Which filters keep everything.
pub proof fn which_filters_are_trivial<'m>()
    ensures
        KeepAll::TRIVIAL,
        !MaskFilter::<'m>::TRIVIAL,
{
}

/// Whether an edge survives, endpoints included. The one predicate that the
/// counts and the walks of a filtered view share.
pub open spec fn edge_kept<F: Filter>(f: F, e: EdgeRef) -> bool {
    F::TRIVIAL || (f.keeps_e(e@.id) && f.keeps_v(e@.src) && f.keeps_v(e@.tgt))
}

/// Whether an incidence survives, given that its anchor does.
pub open spec fn incident_kept<F: Filter>(f: F, i: Incident) -> bool {
    F::TRIVIAL || (f.keeps_e(i.edge) && f.keeps_v(i.other))
}

/// Whether a vertex survives.
pub open spec fn vertex_kept<F: Filter>(f: F, v: VertexId) -> bool {
    F::TRIVIAL || f.keeps_v(v)
}

/// The edges of a run that survive.
pub open spec fn kept_edges<F: Filter>(f: F, s: Seq<EdgeRef>) -> Seq<EdgeRef> {
    s.filter(|e: EdgeRef| edge_kept(f, e))
}

/// The incidences of a run that survive.
pub open spec fn kept_incidents<F: Filter>(f: F, s: Seq<Incident>) -> Seq<Incident> {
    s.filter(|i: Incident| incident_kept(f, i))
}

/// The vertices of a run that survive.
pub open spec fn kept_vertices<F: Filter>(f: F, s: Seq<VertexId>) -> Seq<VertexId> {
    s.filter(|v: VertexId| vertex_kept(f, v))
}

/// Whether an edge survives, endpoints included.
#[inline]
pub fn keeps_edge<F: Filter>(f: F, e: EdgeRef) -> (r: bool)
    ensures
        r == edge_kept(f, e),
{
    F::TRIVIAL || (f.keep_edge(e.id()) && f.keep_vertex(e.source()) && f.keep_vertex(e.target()))
}

/// Whether an incidence survives, given that its anchor already survives.
#[inline]
pub fn keeps_incident<F: Filter>(f: F, i: Incident) -> (r: bool)
    ensures
        r == incident_kept(f, i),
{
    F::TRIVIAL || (f.keep_edge(i.edge) && f.keep_vertex(i.other))
}

/// A view restricted to the vertices and edges a [`Filter`] keeps.
///
/// Both counts are taken at construction, with the *same* predicate that the
/// walks use.
#[derive(Debug)]
pub struct Filtered<G, F> {
    pub(crate) inner: G,
    pub(crate) filter: F,
    pub(crate) n_vertices: usize,
    pub(crate) n_edges: usize,
}

impl<G, F> Filtered<G, F> {
    /// The unfiltered view underneath.
    pub open(crate) spec fn under(self) -> G {
        self.inner
    }

    /// The filter.
    pub open(crate) spec fn sieve(self) -> F {
        self.filter
    }

    /// The counts taken at construction.
    pub open(crate) spec fn counted(self) -> (nat, nat) {
        (self.n_vertices as nat, self.n_edges as nat)
    }

    /// The unfiltered view underneath.
    #[inline]
    pub fn inner(&self) -> (r: &G)
        ensures
            *r == self.under(),
    {
        &self.inner
    }

    /// The filter.
    #[inline]
    pub fn filter(&self) -> (r: &F)
        ensures
            *r == self.sieve(),
    {
        &self.filter
    }
}

impl<G: Clone, F: Clone> Clone for Filtered<G, F> {
    #[inline]
    fn clone(&self) -> (r: Self)
        ensures
            call_ensures(G::clone, (&self.under(),), r.under()),
            call_ensures(F::clone, (&self.sieve(),), r.sieve()),
            r.counted() == self.counted(),
    {
        Filtered {
            inner: self.inner.clone(),
            filter: self.filter.clone(),
            n_vertices: self.n_vertices,
            n_edges: self.n_edges,
        }
    }
}

impl<G: Copy, F: Copy> Copy for Filtered<G, F> {

}

impl<G: GraphRef + VertexList + EdgeList, F: Filter> Filtered<G, F> {
    /// Build a filtered view, counting both honest cardinalities.
    ///
    /// A trivial filter takes the inner counts and pays no sweep.
    pub fn new(inner: G, filter: F) -> (r: Self)
        requires
            inner.wf(),
        ensures
            r.wf(),
            r.under() == inner,
            r.sieve() == filter,
    {
        proof {
            inner.vertices_are_counted();
            inner.edges_are_counted();
        }
        let total_vertices: usize = inner.num_vertices();
        let total_edges: usize = inner.num_edges();
        if F::TRIVIAL {
            proof {
                crate::seqs::lemma_filter_all(inner.vertex_list(), |v: VertexId| vertex_kept(filter, v));
                crate::seqs::lemma_filter_all(inner.edge_list(), |e: EdgeRef| edge_kept(filter, e));
            }
            return Filtered {
                inner,
                filter,
                n_vertices: total_vertices,
                n_edges: total_edges,
            };
        }
        let kept = FilterVertices { inner: inner.vertices(), filter };
        proof {
            inner.vertex_list().lemma_filter_len(|v: VertexId| vertex_kept(filter, v));
            inner.edge_list().lemma_filter_len(|e: EdgeRef| edge_kept(filter, e));
        }
        let n_vertices: usize = kept.count();
        let kept = FilterEdges { inner: inner.edges(), filter };
        let n_edges: usize = kept.count();
        Filtered { inner, filter, n_vertices, n_edges }
    }
}

impl<G: GraphRef + VertexList + EdgeList> Filtered<G, KeepAll> {
    /// The trivially filtered view, without a sweep.
    #[inline]
    pub fn all(inner: G) -> (r: Self)
        requires
            inner.wf(),
        ensures
            r.wf(),
            r.under() == inner,
            r.sieve() == KeepAll,
    {
        proof {
            inner.vertices_are_counted();
            inner.edges_are_counted();
            crate::seqs::lemma_filter_all(inner.vertex_list(), |v: VertexId| vertex_kept(KeepAll, v));
            crate::seqs::lemma_filter_all(inner.edge_list(), |e: EdgeRef| edge_kept(KeepAll, e));
        }
        Filtered {
            n_vertices: inner.num_vertices(),
            n_edges: inner.num_edges(),
            inner,
            filter: KeepAll,
        }
    }
}

impl<'m, G: GraphRef + VertexList + EdgeList> Filtered<G, MaskFilter<'m>> {
    /// Build a mask-filtered view, validating the masks against *this graph's*
    /// own bounds: the vertex mask first, then the edge mask.
    pub fn masked(inner: G, vmask: &'m [u8], emask: &'m [u8]) -> (r: Result<Self, PropError>)
        requires
            inner.wf(),
        ensures
            match r {
                Ok(f) => {
                    &&& vmask@.len() >= inner.vertex_slots()
                    &&& emask@.len() >= inner.edge_slots()
                    &&& f.wf()
                    &&& f.under() == inner
                    &&& f.sieve().vertex_mask() == vmask@
                    &&& f.sieve().edge_mask() == emask@
                },
                Err(PropError::ShortMask { have, need }) => if vmask@.len()
                    < inner.vertex_slots() {
                    have == vmask@.len() && need == inner.vertex_slots()
                } else {
                    emask@.len() < inner.edge_slots() && have == emask@.len() && need
                        == inner.edge_slots()
                },
                Err(_) => false,
            },
    {
        let vb = inner.vertex_bound();
        if vmask.len() < vb.len() {
            return Err(PropError::ShortMask { have: vmask.len(), need: vb.len() });
        }
        let eb = inner.edge_bound();
        if emask.len() < eb.len() {
            return Err(PropError::ShortMask { have: emask.len(), need: eb.len() });
        }
        Ok(Filtered::new(inner, MaskFilter { vmask, emask }))
    }
}

impl<G: HasDir, F> HasDir for Filtered<G, F> {
    type Dir = G::Dir;
}

impl<G: GraphRef + VertexList + EdgeList, F: Filter> GraphBase for Filtered<G, F> {
    /// The view underneath is well formed, and the counts are those of what
    /// survives.
    open spec fn wf(self) -> bool {
        &&& self.under().wf()
        &&& self.counted().0 == kept_vertices(self.sieve(), self.under().vertex_list()).len()
        &&& self.counted().1 == kept_edges(self.sieve(), self.under().edge_list()).len()
    }

    open spec fn storage(self) -> GraphId {
        self.under().storage()
    }

    open spec fn vertex_count(self) -> nat {
        self.counted().0
    }

    open spec fn edge_count(self) -> nat {
        self.counted().1
    }

    open spec fn vertex_slots(self) -> nat {
        self.under().vertex_slots()
    }

    open spec fn edge_slots(self) -> nat {
        self.under().edge_slots()
    }

    #[inline]
    fn graph_id(self) -> (r: GraphId) {
        self.inner.graph_id()
    }

    /// The honest filtered cardinality.
    #[inline]
    fn num_vertices(self) -> (r: usize) {
        self.n_vertices
    }

    /// The honest filtered cardinality.
    #[inline]
    fn num_edges(self) -> (r: usize) {
        self.n_edges
    }

    /// The **unfiltered** allocation bound, forwarded.
    #[inline]
    fn vertex_bound(self) -> (r: VertexBound) {
        self.inner.vertex_bound()
    }

    /// The **unfiltered** allocation bound, forwarded.
    #[inline]
    fn edge_bound(self) -> (r: EdgeBound) {
        self.inner.edge_bound()
    }
}

impl<G: GraphRef + VertexList + EdgeList, F: Filter> GraphRef for Filtered<G, F> {
    type Out = FilterIncident<G::Out, F>;

    type All = FilterIncident<G::All, F>;

    open spec fn out_list(self, v: VertexId) -> Seq<Incident> {
        kept_incidents(self.sieve(), self.under().out_list(v))
    }

    open spec fn all_list(self, v: VertexId) -> Seq<Incident> {
        kept_incidents(self.sieve(), self.under().all_list(v))
    }

    /// The surviving out-edges of `v`. The anchor `v` itself is not probed.
    #[inline]
    fn out_edges(self, v: VertexId) -> (r: FilterIncident<G::Out, F>) {
        FilterIncident { inner: self.inner.out_edges(v), filter: self.filter }
    }

    #[inline]
    fn all_edges(self, v: VertexId) -> (r: FilterIncident<G::All, F>) {
        FilterIncident { inner: self.inner.all_edges(v), filter: self.filter }
    }

    /// By probing, in time linear in the degree.
    #[inline]
    fn out_degree(self, v: VertexId) -> (r: usize) {
        let ghost p = |i: Incident| incident_kept(self.sieve(), i);
        let most: usize = self.inner.out_degree(v);
        if F::TRIVIAL {
            proof {
                crate::seqs::lemma_filter_all(self.under().out_list(v), p);
            }
            return most;
        }
        proof {
            self.under().out_list(v).lemma_filter_len(p);
        }
        self.out_edges(v).count()
    }

    /// By probing the whole incidence run, in time linear in the degree.
    #[inline]
    fn degree(self, v: VertexId) -> (r: usize) {
        let ghost p = |i: Incident| incident_kept(self.sieve(), i);
        let most: usize = self.inner.degree(v);
        if F::TRIVIAL {
            proof {
                crate::seqs::lemma_filter_all(self.under().all_list(v), p);
            }
            return most;
        }
        proof {
            self.under().all_list(v).lemma_filter_len(p);
        }
        self.all_edges(v).count()
    }
}

impl<G: Bidirectional + VertexList + EdgeList, F: Filter> Bidirectional for Filtered<G, F> {
    type In = FilterIncident<G::In, F>;

    open spec fn in_list(self, v: VertexId) -> Seq<Incident> {
        kept_incidents(self.sieve(), self.under().in_list(v))
    }

    #[inline]
    fn in_edges(self, v: VertexId) -> (r: FilterIncident<G::In, F>) {
        FilterIncident { inner: self.inner.in_edges(v), filter: self.filter }
    }

    /// By probing, in time linear in the degree.
    #[inline]
    fn in_degree(self, v: VertexId) -> (r: usize) {
        let ghost p = |i: Incident| incident_kept(self.sieve(), i);
        let most: usize = self.inner.in_degree(v);
        if F::TRIVIAL {
            proof {
                crate::seqs::lemma_filter_all(self.under().in_list(v), p);
            }
            return most;
        }
        proof {
            self.under().in_list(v).lemma_filter_len(p);
        }
        self.in_edges(v).count()
    }
}

impl<G: GraphRef + VertexList + EdgeList, F: Filter> VertexList for Filtered<G, F> {
    type Vertices = FilterVertices<G::Vertices, F>;

    open spec fn vertex_list(self) -> Seq<VertexId> {
        kept_vertices(self.sieve(), self.under().vertex_list())
    }

    proof fn vertices_are_counted(self) {
    }

    #[inline]
    fn vertices(self) -> (r: FilterVertices<G::Vertices, F>) {
        FilterVertices { inner: self.inner.vertices(), filter: self.filter }
    }
}

impl<G: GraphRef + VertexList + EdgeList, F: Filter> EdgeList for Filtered<G, F> {
    type Edges = FilterEdges<G::Edges, F>;

    open spec fn edge_list(self) -> Seq<EdgeRef> {
        kept_edges(self.sieve(), self.under().edge_list())
    }

    proof fn edges_are_counted(self) {
    }

    #[inline]
    fn edges(self) -> (r: FilterEdges<G::Edges, F>) {
        FilterEdges { inner: self.inner.edges(), filter: self.filter }
    }
}

/// The first incidence of a run that survives and has `t` as its other end.
pub open spec fn first_kept<F: Filter>(f: F, run: Seq<Incident>, t: VertexId) -> Option<Incident>
    decreases run.len(),
{
    if run.len() == 0 {
        None
    } else if run[0].other == t && incident_kept(f, run[0]) {
        Some(run[0])
    } else {
        first_kept(f, run.drop_first(), t)
    }
}

impl<G: Endpoints + GraphRef + VertexList + EdgeList, F: Filter> Endpoints for Filtered<G, F> {
    open(crate) spec fn ends_of(self, e: EdgeId) -> Option<(VertexId, VertexId)> {
        match self.under().ends_of(e) {
            Some((s, t)) => if edge_kept(self.sieve(), EdgeRef { id: e, src: s, tgt: t }) {
                Some((s, t))
            } else {
                None
            },
            None => None,
        }
    }

    open(crate) spec fn first_edge(self, s: VertexId, t: VertexId) -> Option<EdgeRef> {
        if F::TRIVIAL {
            self.under().first_edge(s, t)
        } else if !self.sieve().keeps_v(s) {
            None
        } else {
            match first_kept(self.sieve(), self.under().out_list(s), t) {
                Some(hit) => match self.under().ends_of(hit.edge) {
                    Some((a, b)) => Some(EdgeRef { id: hit.edge, src: a, tgt: b }),
                    None => None,
                },
                None => None,
            }
        }
    }

    /// `None` when the edge or either endpoint is filtered out.
    #[inline]
    fn endpoints(self, e: EdgeId) -> (r: Option<(VertexId, VertexId)>) {
        match self.inner.endpoints(e) {
            Some((s, t)) => if keeps_edge(self.filter, EdgeRef::new(e, s, t)) {
                Some((s, t))
            } else {
                None
            },
            None => None,
        }
    }

    #[inline]
    fn opposite(self, e: EdgeId, v: VertexId) -> (r: Option<VertexId>) {
        match self.endpoints(e) {
            Some((s, t)) => EdgeRef::new(e, s, t).opposite(v),
            None => None,
        }
    }

    /// The first *surviving* edge from `s` to `t`, in this view's orientation:
    /// a filtered-out parallel edge does not hide a surviving one.
    fn find_edge(self, s: VertexId, t: VertexId) -> (r: Option<EdgeRef>) {
        if F::TRIVIAL {
            return self.inner.find_edge(s, t);
        }
        if !self.filter.keep_vertex(s) {
            return None;
        }
        let ghost run = self.under().out_list(s);
        let mut walk = self.inner.out_edges(s);
        loop
            invariant
                walk.wf(),
                self.wf(),
                !F::TRIVIAL,
                self.sieve().keeps_v(s),
                run == self.under().out_list(s),
                first_kept(self.sieve(), run, t) == first_kept(self.sieve(), walk.rest(), t),
            decreases walk.rest().len(),
        {
            match walk.next() {
                Some(hit) => {
                    if hit.other == t && keeps_incident(self.filter, hit) {
                        return match self.inner.endpoints(hit.edge) {
                            Some((a, b)) => Some(EdgeRef::new(hit.edge, a, b)),
                            None => None,
                        };
                    }
                },
                None => {
                    return None;
                },
            }
        }
    }
}

impl<I: Walk<Item = Incident>, F: Filter> Walk for FilterIncident<I, F> {
    type Item = Incident;

    open(crate) spec fn wf(&self) -> bool {
        self.inner.wf()
    }

    open(crate) spec fn rest(&self) -> Seq<Incident> {
        kept_incidents(self.filter, self.inner.rest())
    }

    /// At least nothing, and at most what the inner walk promises.
    open(crate) spec fn hint(&self) -> (nat, Option<nat>) {
        (0, self.inner.hint().1)
    }

    #[inline]
    fn next(&mut self) -> (r: Option<Incident>) {
        let ghost p = |i: Incident| incident_kept(old(self).filter, i);
        loop
            invariant
                self.inner.wf(),
                self.filter == old(self).filter,
                p == (|i: Incident| incident_kept(old(self).filter, i)),
                self.rest() == old(self).rest(),
            decreases self.inner.rest().len(),
        {
            let ghost before = self.inner.rest();
            match self.inner.next() {
                Some(i) => {
                    proof {
                        crate::seqs::lemma_filter_first(before, p);
                    }
                    if keeps_incident(self.filter, i) {
                        return Some(i);
                    }
                },
                None => {
                    proof {
                        before.lemma_filter_len(p);
                    }
                    return None;
                },
            }
        }
    }

    #[inline]
    fn size_hint(&self) -> (r: (usize, Option<usize>)) {
        proof {
            self.inner.rest().lemma_filter_len(|i: Incident| incident_kept(self.filter, i));
        }
        let hint = self.inner.size_hint();
        (0, hint.1)
    }
}

impl<I: Walk<Item = EdgeRef>, F: Filter> Walk for FilterEdges<I, F> {
    type Item = EdgeRef;

    open(crate) spec fn wf(&self) -> bool {
        self.inner.wf()
    }

    open(crate) spec fn rest(&self) -> Seq<EdgeRef> {
        kept_edges(self.filter, self.inner.rest())
    }

    /// At least nothing, and at most what the inner walk promises.
    open(crate) spec fn hint(&self) -> (nat, Option<nat>) {
        (0, self.inner.hint().1)
    }

    #[inline]
    fn next(&mut self) -> (r: Option<EdgeRef>) {
        let ghost p = |e: EdgeRef| edge_kept(old(self).filter, e);
        loop
            invariant
                self.inner.wf(),
                self.filter == old(self).filter,
                p == (|e: EdgeRef| edge_kept(old(self).filter, e)),
                self.rest() == old(self).rest(),
            decreases self.inner.rest().len(),
        {
            let ghost before = self.inner.rest();
            match self.inner.next() {
                Some(e) => {
                    proof {
                        crate::seqs::lemma_filter_first(before, p);
                    }
                    if keeps_edge(self.filter, e) {
                        return Some(e);
                    }
                },
                None => {
                    proof {
                        before.lemma_filter_len(p);
                    }
                    return None;
                },
            }
        }
    }

    #[inline]
    fn size_hint(&self) -> (r: (usize, Option<usize>)) {
        proof {
            self.inner.rest().lemma_filter_len(|e: EdgeRef| edge_kept(self.filter, e));
        }
        let hint = self.inner.size_hint();
        (0, hint.1)
    }
}

impl<I: Walk<Item = VertexId>, F: Filter> Walk for FilterVertices<I, F> {
    type Item = VertexId;

    open(crate) spec fn wf(&self) -> bool {
        self.inner.wf()
    }

    open(crate) spec fn rest(&self) -> Seq<VertexId> {
        kept_vertices(self.filter, self.inner.rest())
    }

    /// At least nothing, and at most what the inner walk promises.
    open(crate) spec fn hint(&self) -> (nat, Option<nat>) {
        (0, self.inner.hint().1)
    }

    #[inline]
    fn next(&mut self) -> (r: Option<VertexId>) {
        let ghost p = |v: VertexId| vertex_kept(old(self).filter, v);
        loop
            invariant
                self.inner.wf(),
                self.filter == old(self).filter,
                p == (|v: VertexId| vertex_kept(old(self).filter, v)),
                self.rest() == old(self).rest(),
            decreases self.inner.rest().len(),
        {
            let ghost before = self.inner.rest();
            match self.inner.next() {
                Some(v) => {
                    proof {
                        crate::seqs::lemma_filter_first(before, p);
                    }
                    if F::TRIVIAL || self.filter.keep_vertex(v) {
                        return Some(v);
                    }
                },
                None => {
                    proof {
                        before.lemma_filter_len(p);
                    }
                    return None;
                },
            }
        }
    }

    #[inline]
    fn size_hint(&self) -> (r: (usize, Option<usize>)) {
        proof {
            self.inner.rest().lemma_filter_len(|v: VertexId| vertex_kept(self.filter, v));
        }
        let hint = self.inner.size_hint();
        (0, hint.1)
    }
}

} // verus!
