//! The bulk loader's computations: turning fetched transactions into loader
//! records, bucketing them into layers by ancestor count, and reporting
//! progress in whole percent steps.

use vstd::prelude::*;
use vstd::seq_lib::group_seq_properties;

use crate::errors::CoreError;
use crate::hexcode::hex_decode;
use crate::hexcode::hex_decode_spec;
use crate::hexcode::is_hex_str;
use crate::txdepth::TxDepth;

verus! {

/// Build the loader record for one listed transaction. A transaction whose
/// fetch found nothing is skipped silently; hex that does not parse is a
/// malformed node response.
pub fn make_tx_depth(ancestor_count: usize, tx_id: String, fetched_hex: Option<Vec<u8>>) -> (r:
    Result<Option<TxDepth>, CoreError>)
    ensures
        match fetched_hex {
            None => r == Ok::<Option<TxDepth>, CoreError>(None),
            Some(h) => if is_hex_str(h@) {
                r matches Ok(Some(t)) && t.ancestor_count == ancestor_count && t.tx_id@ == tx_id@
                    && t.bytes@ == hex_decode_spec(h@)
            } else {
                r == Err::<Option<TxDepth>, CoreError>(CoreError::RpcProtocol)
            },
        },
{
    match fetched_hex {
        None => Ok(None),
        Some(h) => match hex_decode(&h) {
            Some(bytes) => Ok(Some(TxDepth { ancestor_count, tx_id, bytes })),
            None => Err(CoreError::RpcProtocol),
        },
    }
}

/// Bucket the records into layers: layer `i` holds, in their incoming
/// order, exactly the records whose ancestor count is `i + 1`; the last
/// layer is never empty, though layers between populated ones may be.
pub fn get_mempool_layers(vec: Vec<TxDepth>) -> (r: Vec<Vec<TxDepth>>)
    requires
        forall|i: int| 0 <= i < vec@.len() ==> 1 <= #[trigger] vec@[i].ancestor_count,
    ensures
        forall|i: int|
            0 <= i < r@.len() ==> r@[i]@ == vec@.filter(
                |t: TxDepth| t.ancestor_count == i + 1,
            ),
        forall|j: int| 0 <= j < vec@.len() ==> #[trigger] vec@[j].ancestor_count <= r@.len(),
        r@.len() > 0 ==> r@[r@.len() - 1]@.len() > 0,
{
    broadcast use group_seq_properties;

    let mut vec = vec;
    let mut r: Vec<Vec<TxDepth>> = Vec::new();
    let ghost whole = vec@;
    let total = vec.len();
    let mut k: usize = 0;
    while vec.len() > 0
        invariant
            whole.len() == total,
            k + vec@.len() == whole.len(),
            vec@ =~= whole.skip(k as int),
            forall|i: int| 0 <= i < whole.len() ==> 1 <= #[trigger] whole[i].ancestor_count,
            forall|i: int|
                0 <= i < r@.len() ==> r@[i]@ == whole.take(k as int).filter(
                    |t: TxDepth| t.ancestor_count == i + 1,
                ),
            forall|j: int|
                0 <= j < k ==> #[trigger] whole[j].ancestor_count <= r@.len(),
            r@.len() > 0 ==> r@[r@.len() - 1]@.len() > 0,
        decreases vec@.len(),
    {
        let ghost r0 = r@;
        let tx_depth = vec.remove(0);
        proof {
            assert(whole.skip(k as int).remove(0) =~= whole.skip(k + 1));
            assert(tx_depth == whole[k as int]);
        }
        let ancestor_index = tx_depth.ancestor_count - 1;
        while r.len() <= ancestor_index
            invariant
                forall|i: int|
                    0 <= i < r@.len() && i < r0.len() ==> r@[i] == r0[i],
                forall|i: int|
                    r0.len() <= i < r@.len() ==> r@[i]@ == Seq::<TxDepth>::empty(),
                r@.len() >= r0.len(),
                r@.len() <= r0.len() || r@.len() <= ancestor_index + 1,
            decreases ancestor_index + 1 - r@.len(),
        {
            let empty_layer: Vec<TxDepth> = Vec::new();
            r.push(empty_layer);
        }
        let ghost r1 = r@;
        let layer = vstd::std_specs::vec::vec_index_mut(&mut r, ancestor_index);
        layer.push(tx_depth);
        proof {
            let pred = |i: int| (|t: TxDepth| t.ancestor_count == i + 1);
            let prefix = whole.take(k as int);
            let prefix1 = whole.take(k + 1);
            assert(prefix1 =~= prefix.push(whole[k as int]));
            assert(r@.len() == r1.len());
            assert(forall|i: int|
                0 <= i < r1.len() && i != ancestor_index ==> r@[i] == r1[i]);
            assert(r@[ancestor_index as int]@ =~= r1[ancestor_index as int]@.push(tx_depth));
            assert forall|i: int| 0 <= i < r@.len() implies r@[i]@ == prefix1.filter(
                pred(i),
            ) by {
                prefix.lemma_filter_push(whole[k as int], pred(i));
                assert(prefix1.filter(pred(i)) == if pred(i)(whole[k as int]) {
                    prefix.filter(pred(i)).push(whole[k as int])
                } else {
                    prefix.filter(pred(i))
                });
                let base: Seq<TxDepth> = if i < r0.len() {
                    r0[i]@
                } else {
                    Seq::<TxDepth>::empty()
                };
                assert(r1[i]@ == base);
                if i >= r0.len() {
                    assert(prefix.filter(pred(i)) =~= Seq::<TxDepth>::empty()) by {
                        assert forall|q: int| 0 <= q < prefix.len() implies !(pred(i)(
                            prefix[q],
                        )) by {
                            assert(prefix[q] == whole[q]);
                            assert(whole[q].ancestor_count <= r0.len());
                        }
                        prefix.lemma_all_neg_filter_empty(pred(i));
                    }
                }
                if i == ancestor_index {
                    assert(r@[i]@ == r1[i]@.push(tx_depth));
                    assert(pred(i)(whole[k as int]));
                } else {
                    assert(r@[i]@ == r1[i]@);
                    assert(!(pred(i)(whole[k as int])));
                }
            }
        }
        k = k + 1;
    }
    proof {
        assert(whole.take(whole.len() as int) =~= whole);
        assert(k == whole.len());
    }
    r
}

/// Law: layers characterized as ancestor-count filters — as
/// `get_mempool_layers` builds them — satisfy the layering premise of the
/// bulk-load ordering law: everything in layer `p` has ancestor count
/// `p + 1`.
pub proof fn lemma_filter_layers_are_by_ancestor_count(vs: Seq<Vec<TxDepth>>, whole: Seq<TxDepth>)
    requires
        forall|i: int|
            0 <= i < vs.len() ==> vs[i]@ == whole.filter(|t: TxDepth| t.ancestor_count == i + 1),
    ensures
        forall|p: int, q: int|
            0 <= p < vs.len() && 0 <= q < vs[p]@.len() ==> #[trigger] vs[p]@[q].ancestor_count == p
                + 1,
{
    assert forall|p: int, q: int|
        0 <= p < vs.len() && 0 <= q < vs[p]@.len() implies #[trigger] vs[p]@[q].ancestor_count == p
        + 1 by {
        whole.lemma_filter_pred(|t: TxDepth| t.ancestor_count == p + 1, q);
    }
}

/// What one progress step reports.
#[derive(Clone, Copy, Debug, PartialEq, Eq, Structural)]
pub enum LoadProgress {
    /// The first record, or an empty pool: loading has begun.
    Begin,
    /// The last record: loading is complete.
    Done,
    /// A whole percent newly reached.
    Step { percent: u32 },
    /// Nothing new to report.
    Quiet,
}

/// One progress step of the bulk fetch: `i` records of `size` were already
/// handled before this one. Reports each whole percent once, the start at
/// the first record and the finish at the last; returns the report and the
/// new high-water percent.
pub fn percent(i: u32, last_per: u32, size: u32) -> (r: (LoadProgress, u32))
    requires
        i <= size,
    ensures
        (i == 0 || size == 0) ==> r == (LoadProgress::Begin, last_per),
        (i != 0 && size != 0 && i == size) ==> r == (LoadProgress::Done, last_per),
        (i != 0 && size != 0 && i != size) ==> ({
            let per = ((100 * (i as int)) / (size as int)) as u32;
            &&& r.1 == if per > last_per {
                per
            } else {
                last_per
            }
            &&& r.0 == if per != last_per {
                LoadProgress::Step { percent: per }
            } else {
                LoadProgress::Quiet
            }
        }),
{
    if i == 0 || size == 0 {
        (LoadProgress::Begin, last_per)
    } else if i == size {
        (LoadProgress::Done, last_per)
    } else {
        let per_wide = (100u64 * (i as u64)) / (size as u64);
        let per = per_wide as u32;
        proof {
            assert(100 * (i as int) / (size as int) < 100) by (nonlinear_arith)
                requires
                    0 < size,
                    0 <= i < size,
            ;
        }
        let new_last = if per > last_per {
            per
        } else {
            last_per
        };
        if per != last_per {
            (LoadProgress::Step { percent: per }, new_last)
        } else {
            (LoadProgress::Quiet, new_last)
        }
    }
}

} // verus!
