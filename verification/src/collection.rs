//! The collection builder: it drives the record decoder until the byte
//! source is exhausted, then inverts the container references into child
//! lists in a second pass.

use vstd::prelude::*;

use crate::polygon::{spec_record_at, Polygon, PolygonId, PolygonModel, RecordOutcome};
use crate::stream::{opt_view, ByteSource, DecodeError};

verus! {

/// The models of a sequence of polygons.
pub open spec fn models_of(ps: Seq<Polygon>) -> Seq<PolygonModel> {
    ps.map_values(|p: Polygon| p@)
}

/// The container reference of every polygon of a model sequence.
pub open spec fn containers_of(ms: Seq<PolygonModel>) -> Seq<Option<int>> {
    ms.map_values(|m: PolygonModel| m.container)
}

/// Decoding records one after another from byte offset `i` until the clean
/// end of the stream, or the first error.
pub open spec fn spec_records_from(s: Seq<u8>, i: int) -> Result<Seq<PolygonModel>, DecodeError>
    decreases s.len() - i,
{
    match spec_record_at(s, i) {
        RecordOutcome::EndOfInput => Ok(Seq::empty()),
        RecordOutcome::Truncated => Err(DecodeError::Truncated),
        RecordOutcome::NegativeId => Err(DecodeError::NegativeId),
        RecordOutcome::Record { poly, next } => match spec_records_from(s, next) {
            Ok(rest) => Ok(seq![poly] + rest),
            Err(e) => Err(e),
        },
    }
}

/// The positions `p` below `n` whose container reference is `k`, in
/// ascending order.
pub open spec fn child_positions(cs: Seq<Option<int>>, k: int, n: int) -> Seq<int>
    decreases n,
{
    if n <= 0 {
        Seq::empty()
    } else if cs[n - 1] == Some(k) {
        child_positions(cs, k, n - 1).push(n - 1)
    } else {
        child_positions(cs, k, n - 1)
    }
}

/// The second pass: every polygon's child list is the ascending sequence of
/// the positions that name it as their container.
pub open spec fn spec_with_children(ms: Seq<PolygonModel>) -> Seq<PolygonModel> {
    Seq::new(
        ms.len(),
        |k: int|
            PolygonModel {
                children: child_positions(containers_of(ms), k, ms.len() as int),
                ..ms[k]
            },
    )
}

/// Whether the polygon at position `p` holds a container reference that
/// points outside the collection.
pub open spec fn dangling_at(ms: Seq<PolygonModel>, p: int) -> bool {
    match ms[p].container {
        Some(c) => !(0 <= c < ms.len()),
        None => false,
    }
}

/// Whether any polygon holds a dangling container reference.
pub open spec fn has_dangling(ms: Seq<PolygonModel>) -> bool {
    exists|p: int| 0 <= p < ms.len() && dangling_at(ms, p)
}

/// What decoding a whole byte source from offset `i` yields: the records,
/// rejected if any container reference dangles, with the child lists of the
/// second pass filled in.
pub open spec fn spec_decode(s: Seq<u8>, i: int) -> Result<Seq<PolygonModel>, DecodeError> {
    match spec_records_from(s, i) {
        Ok(ms) => if has_dangling(ms) {
            Err(DecodeError::DanglingContainer)
        } else {
            Ok(spec_with_children(ms))
        },
        Err(e) => Err(e),
    }
}

/// Bounds, strict ascent and membership of `child_positions`: position `p`
/// stands among the children of `k` below `n` exactly when `p` lies below
/// `n` and names `k` as its container.
proof fn lemma_child_positions_props(cs: Seq<Option<int>>, k: int, n: int)
    requires
        0 <= n,
    ensures
        forall|idx: int|
            0 <= idx < child_positions(cs, k, n).len() ==> 0 <= #[trigger] child_positions(
                cs,
                k,
                n,
            )[idx] < n,
        forall|i: int, j: int|
            0 <= i < j < child_positions(cs, k, n).len() ==> child_positions(cs, k, n)[i]
                < child_positions(cs, k, n)[j],
        forall|p: int|
            #[trigger] child_positions(cs, k, n).contains(p) <==> (0 <= p < n && cs[p] == Some(k)),
    decreases n,
{
    if n > 0 {
        lemma_child_positions_props(cs, k, n - 1);
        let prev = child_positions(cs, k, n - 1);
        let curr = child_positions(cs, k, n);
        assert forall|p: int| #[trigger] curr.contains(p) implies (0 <= p < n && cs[p] == Some(
            k,
        )) by {
            let i = choose|i: int| 0 <= i < curr.len() && curr[i] == p;
            if cs[n - 1] == Some(k) && i == prev.len() {
                assert(p == n - 1);
            } else {
                assert(prev[i] == p);
                assert(prev.contains(p));
            }
        }
        assert forall|p: int| (0 <= p < n && cs[p] == Some(k)) implies #[trigger] curr.contains(
            p,
        ) by {
            if p < n - 1 {
                assert(prev.contains(p));
                let i = choose|i: int| 0 <= i < prev.len() && prev[i] == p;
                assert(curr[i] == p);
            } else {
                assert(curr[prev.len() as int] == n - 1);
            }
        }
    }
}

/// The children lists are a correct inverse of the container references:
/// after the second pass, position `p` stands in `k`'s child list when and
/// only when `p`'s polygon names `k` as its container, the child list is
/// strictly ascending (so each position stands in it at most once), and the
/// second pass changes no container reference.
pub proof fn lemma_children_invert_container(ms: Seq<PolygonModel>, k: int, p: int)
    requires
        0 <= k < ms.len(),
        0 <= p < ms.len(),
    ensures
        spec_with_children(ms)[k].container == ms[k].container,
        spec_with_children(ms)[k].children.contains(p) <==> ms[p].container == Some(k),
        forall|i: int, j: int|
            0 <= i < j < spec_with_children(ms)[k].children.len() ==> spec_with_children(
                ms,
            )[k].children[i] < spec_with_children(ms)[k].children[j],
{
    let cs = containers_of(ms);
    lemma_child_positions_props(cs, k, ms.len() as int);
    assert(cs[p] == ms[p].container);
    assert(spec_with_children(ms)[k].children == child_positions(cs, k, ms.len() as int));
}

/// In a successfully decoded collection every container reference that is
/// present points at a valid position, strictly below the collection
/// length.
pub proof fn lemma_decoded_containers_in_range(s: Seq<u8>, i: int, p: int)
    requires
        spec_decode(s, i) is Ok,
        0 <= p < spec_decode(s, i)->Ok_0.len(),
    ensures
        match spec_decode(s, i)->Ok_0[p].container {
            Some(c) => 0 <= c < spec_decode(s, i)->Ok_0.len(),
            None => true,
        },
{
    let ms = spec_records_from(s, i)->Ok_0;
    assert(!dangling_at(ms, p));
    assert(spec_decode(s, i)->Ok_0[p].container == ms[p].container);
}

/// Decoding is deterministic: two collections decoded from the same byte
/// stream at the same offset are structurally equal.
pub proof fn lemma_decode_idempotent(s: Seq<u8>, i: int, g1: Gshhg, g2: Gshhg)
    requires
        spec_decode(s, i) == Ok::<Seq<PolygonModel>, DecodeError>(g1@),
        spec_decode(s, i) == Ok::<Seq<PolygonModel>, DecodeError>(g2@),
    ensures
        g1@ == g2@,
{
}

/// A fully decoded GSHHG collection, ordered by polygon position.
#[derive(Debug, Clone, PartialEq)]
pub struct Gshhg {
    pub polygons: Vec<Polygon>,
}

impl View for Gshhg {
    type V = Seq<PolygonModel>;

    open spec fn view(&self) -> Seq<PolygonModel> {
        models_of(self.polygons@)
    }
}

impl Gshhg {
    /// Decodes the whole byte source into a collection.
    ///
    /// Records are read one after another; running out of bytes at a record
    /// boundary is the expected end of a well-formed file, while any other
    /// failure aborts the whole decode.  A second pass then appends each
    /// position to the child list of its container, in ascending order, and
    /// rejects container references that point outside the collection.
    ///
    /// Each record's stored identity is preserved verbatim and not checked
    /// against its position: in a well-formed file the two coincide, and
    /// the builder deliberately trusts position, as the child lists are
    /// built over positions alone.
    #[verifier::loop_isolation(false)]
    pub fn from_reader(r: &mut ByteSource) -> (res: Result<Self, DecodeError>)
        requires
            old(r).wf(),
        ensures
            final(r).wf(),
            final(r).bytes() == old(r).bytes(),
            match spec_decode(old(r).bytes(), old(r).pos()) {
                Ok(ms) => res matches Ok(g) && g@ == ms,
                Err(e) => res == Err::<Gshhg, DecodeError>(e),
            },
    {
        let ghost s: Seq<u8> = r.bytes();
        let ghost start: int = r.pos();
        let mut polygons: Vec<Polygon> = Vec::new();
        proof {
            assert(models_of(polygons@) + Seq::<PolygonModel>::empty() =~= models_of(polygons@));
        }
        let mut done: bool = false;
        while !done
            invariant
                r.wf(),
                r.bytes() == s,
                start <= r.pos(),
                forall|k: int|
                    0 <= k < polygons@.len() ==> (#[trigger] models_of(polygons@)[k]).children
                        == Seq::<int>::empty(),
                match spec_records_from(s, r.pos()) {
                    Ok(rest) => spec_records_from(s, start) == Ok::<
                        Seq<PolygonModel>,
                        DecodeError,
                    >(models_of(polygons@) + rest),
                    Err(e) => spec_records_from(s, start) == Err::<
                        Seq<PolygonModel>,
                        DecodeError,
                    >(e),
                },
                done ==> spec_records_from(s, r.pos()) == Ok::<Seq<PolygonModel>, DecodeError>(
                    Seq::empty(),
                ),
            decreases s.len() - r.pos(), (if done { 0int } else { 1int }),
        {
            match Polygon::from_reader(r) {
                Ok(poly) => {
                    proof {
                        let rest0 = spec_records_from(s, r.pos());
                        assert(models_of(polygons@.push(poly)) =~= models_of(polygons@).push(
                            poly@,
                        ));
                        if rest0 is Ok {
                            assert(models_of(polygons@).push(poly@) + rest0->Ok_0 =~= models_of(
                                polygons@,
                            ) + (seq![poly@] + rest0->Ok_0));
                        }
                    }
                    polygons.push(poly);
                },
                Err(e) => {
                    match e {
                        DecodeError::UnexpectedEof => {
                            done = true;
                        },
                        _ => {
                            return Err(e);
                        },
                    }
                },
            }
        }
        proof {
            assert(models_of(polygons@) + Seq::<PolygonModel>::empty() =~= models_of(polygons@));
        }

        let ghost ms: Seq<PolygonModel> = models_of(polygons@);
        let ghost cs: Seq<Option<int>> = containers_of(ms);
        let npoly: usize = polygons.len();
        proof {
            assert forall|k: int| 0 <= k < npoly implies polygons@[k]@ == (PolygonModel {
                children: child_positions(cs, k, 0),
                ..ms[k]
            }) by {
                assert(ms[k] == polygons@[k]@);
                assert(ms[k].children == Seq::<int>::empty());
                assert(polygons@[k]@ =~= PolygonModel { children: child_positions(cs, k, 0), ..ms[k] });
            }
        }
        let mut ipoly: usize = 0;
        while ipoly < npoly
            invariant
                ipoly <= npoly,
                polygons@.len() == npoly,
                ms.len() == npoly,
                forall|k: int|
                    0 <= k < npoly ==> #[trigger] polygons@[k]@ == (PolygonModel {
                        children: child_positions(cs, k, ipoly as int),
                        ..ms[k]
                    }),
                forall|p: int| 0 <= p < ipoly ==> !dangling_at(ms, p),
            decreases npoly - ipoly,
        {
            let cont: Option<PolygonId> = polygons[ipoly].container;
            proof {
                assert(polygons@[ipoly as int]@ == (PolygonModel {
                    children: child_positions(cs, ipoly as int, ipoly as int),
                    ..ms[ipoly as int]
                }));
                assert(ms[ipoly as int].container == opt_view(cont));
                assert(cs[ipoly as int] == ms[ipoly as int].container);
            }
            match cont {
                Some(ip) => {
                    if ip >= npoly {
                        proof {
                            assert(ms[ipoly as int].container == Some(ip as int));
                            assert(dangling_at(ms, ipoly as int));
                        }
                        return Err(DecodeError::DanglingContainer);
                    }
                    let ghost before: Seq<Polygon> = polygons@;
                    let parent: &mut Polygon = &mut polygons[ip];
                    parent.children.push(ipoly);
                    proof {
                        assert forall|k: int| 0 <= k < npoly implies polygons@[k]@ == (
                        PolygonModel {
                            children: child_positions(cs, k, ipoly as int + 1),
                            ..ms[k]
                        }) by {
                            if k == ip {
                                assert(before[k]@ == (PolygonModel {
                                    children: child_positions(cs, k, ipoly as int),
                                    ..ms[k]
                                }));
                                assert(polygons@[k].children@ == before[k].children@.push(ipoly));
                                assert(polygons@[k]@.children =~= before[k]@.children.push(
                                    ipoly as int,
                                ));
                                assert(cs[ipoly as int] == Some(k));
                                assert(child_positions(cs, k, ipoly as int + 1) == child_positions(
                                    cs,
                                    k,
                                    ipoly as int,
                                ).push(ipoly as int));
                                assert(polygons@[k]@ =~= PolygonModel {
                                    children: child_positions(cs, k, ipoly as int + 1),
                                    ..ms[k]
                                });
                            } else {
                                assert(polygons@[k]@ == before[k]@);
                            }
                        }
                    }
                },
                None => {},
            }
            ipoly = ipoly + 1;
        }

        proof {
            assert(!has_dangling(ms));
            let out = spec_with_children(ms);
            assert forall|k: int| 0 <= k < npoly implies models_of(polygons@)[k] == out[k] by {
                assert(polygons@[k]@ == out[k]);
            }
            assert(models_of(polygons@) =~= out);
        }
        Ok(Gshhg { polygons })
    }
}

} // verus!
