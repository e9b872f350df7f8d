//! The process-wide source priority order and the merge/sort engine.
//!
//! Results from several sources are concatenated, normalized, and then
//! stably ordered by each entry's rank in the priority order; a source
//! absent from the order ranks after every listed one.  The order itself
//! comes from an optional external list, one identifier per line, falling
//! back to a fixed default.

use vstd::prelude::*;

use rayon::iter::{IntoParallelRefMutIterator, ParallelIterator};

use crate::entry::{entry_models, DatabaseEntry, EntryModel, normalized_entry};
use crate::source::AudioSource;
use crate::text::{first_nl, lemma_first_nl_at, split_lines, str_eq, trim_str, trimmed};

verus! {

/// The rank of source `s` in `order`: the position of its first occurrence,
/// or `order.len()` when it is absent, so that unlisted sources sort after
/// every listed one.
pub open spec fn rank_in(order: Seq<AudioSource>, s: AudioSource) -> int
    decreases order.len(),
{
    if order.len() == 0 {
        0
    } else if order.first() == s {
        0
    } else {
        1 + rank_in(order.drop_first(), s)
    }
}

/// Basic facts about `rank_in`: it is the first occurrence, and it stays
/// within `0 ..= order.len()`.
pub proof fn lemma_rank_in_props(order: Seq<AudioSource>, s: AudioSource)
    ensures
        0 <= rank_in(order, s) <= order.len(),
        rank_in(order, s) < order.len() ==> order[rank_in(order, s)] == s,
        forall|j: int| 0 <= j < rank_in(order, s) ==> order[j] != s,
    decreases order.len(),
{
    if order.len() > 0 && order.first() != s {
        lemma_rank_in_props(order.drop_first(), s);
        assert forall|j: int| 0 <= j < rank_in(order, s) implies order[j] != s by {
            if j > 0 {
                assert(order.drop_first()[j - 1] == order[j]);
            }
        }
    }
}

/// A source is listed exactly when its rank is a real position.
pub proof fn lemma_rank_lt_len_iff_listed(order: Seq<AudioSource>, s: AudioSource)
    ensures
        rank_in(order, s) < order.len() <==> order.contains(s),
    decreases order.len(),
{
    lemma_rank_in_props(order, s);
    if order.contains(s) {
        let w = choose|w: int| 0 <= w < order.len() && order[w] == s;
        assert(!(w < rank_in(order, s)));
    }
}

/// `rank_in` is characterised by its first-occurrence property.
proof fn lemma_rank_in_at(order: Seq<AudioSource>, s: AudioSource, m: int)
    requires
        0 <= m <= order.len(),
        forall|j: int| 0 <= j < m ==> order[j] != s,
        m == order.len() || order[m] == s,
    ensures
        rank_in(order, s) == m,
    decreases order.len(),
{
    if m > 0 {
        lemma_rank_in_at(order.drop_first(), s, m - 1);
    }
}

/// The rank of `s` in `order`.
pub fn rank_of(order: &Vec<AudioSource>, s: AudioSource) -> (r: usize)
    ensures
        r as int == rank_in(order@, s),
{
    let n = order.len();
    let mut i: usize = 0;
    while i < n
        invariant
            n == order@.len(),
            0 <= i <= n,
            forall|j: int| 0 <= j < i ==> order@[j] != s,
        decreases n - i,
    {
        if order[i] == s {
            proof {
                lemma_rank_in_at(order@, s, i as int);
            }
            return i;
        }
        i += 1;
    }
    proof {
        lemma_rank_in_at(order@, s, n as int);
    }
    n
}

/// The built-in priority order, used when no external list is available.
pub open spec fn spec_default_order() -> Seq<AudioSource> {
    seq![
        AudioSource::Daijisen,
        AudioSource::Nhk16,
        AudioSource::Shinmeikai8,
        AudioSource::ForvoJp,
        AudioSource::ForvoZh,
        AudioSource::ForvoEs,
        AudioSource::Jpod,
    ]
}

/// The built-in priority order.
pub fn default_order() -> (r: Vec<AudioSource>)
    ensures
        r@ == spec_default_order(),
{
    let mut v: Vec<AudioSource> = Vec::new();
    v.push(AudioSource::Daijisen);
    v.push(AudioSource::Nhk16);
    v.push(AudioSource::Shinmeikai8);
    v.push(AudioSource::ForvoJp);
    v.push(AudioSource::ForvoZh);
    v.push(AudioSource::ForvoEs);
    v.push(AudioSource::Jpod);
    proof {
        assert(v@ =~= spec_default_order());
    }
    v
}

/// Which source a line of the external priority list names, or `None` for
/// an unrecognised line, which is ignored.
pub open spec fn spec_known_source(name: Seq<char>) -> Option<AudioSource> {
    if name == "forvo"@ || name == "forvo_jp"@ {
        Option::Some(AudioSource::ForvoJp)
    } else if name == "forvo_zh"@ {
        Option::Some(AudioSource::ForvoZh)
    } else if name == "forvo_es"@ {
        Option::Some(AudioSource::ForvoEs)
    } else if name == "shinmeikai8"@ {
        Option::Some(AudioSource::Shinmeikai8)
    } else if name == "nhk16"@ {
        Option::Some(AudioSource::Nhk16)
    } else if name == "daijisen"@ {
        Option::Some(AudioSource::Daijisen)
    } else if name == "jpod"@ {
        Option::Some(AudioSource::Jpod)
    } else if name == "other"@ {
        Option::Some(AudioSource::Other)
    } else {
        Option::None
    }
}

/// The sources named by the external list: each line trimmed, recognised
/// identifiers kept in order, everything else ignored.
pub open spec fn parsed_sources(s: Seq<char>) -> Seq<AudioSource> {
    split_lines(s).map_values(|l: Seq<char>| trimmed(l)).filter_map(
        |l: Seq<char>| spec_known_source(l),
    )
}

proof fn lemma_filter_map_add<A, B>(a: Seq<A>, b: Seq<A>, f: spec_fn(A) -> Option<B>)
    ensures
        (a + b).filter_map(f) == a.filter_map(f) + b.filter_map(f),
    decreases b.len(),
{
    if b.len() == 0 {
        assert(a + b =~= a);
        assert(a.filter_map(f) + b.filter_map(f) =~= a.filter_map(f));
    } else {
        lemma_filter_map_add(a, b.drop_last(), f);
        assert((a + b).drop_last() =~= a + b.drop_last());
        assert((a + b).last() == b.last());
        match f(b.last()) {
            Option::Some(x) => {
                assert(a.filter_map(f) + (b.drop_last().filter_map(f) + seq![x]) =~= (a.filter_map(
                    f,
                ) + b.drop_last().filter_map(f)) + seq![x]);
            },
            Option::None => {},
        }
    }
}

/// Which source a line names, or `None` for an unrecognised line.
fn known_source(name: &str) -> (r: Option<AudioSource>)
    ensures
        r == spec_known_source(name@),
{
    if str_eq(name, "forvo") || str_eq(name, "forvo_jp") {
        Option::Some(AudioSource::ForvoJp)
    } else if str_eq(name, "forvo_zh") {
        Option::Some(AudioSource::ForvoZh)
    } else if str_eq(name, "forvo_es") {
        Option::Some(AudioSource::ForvoEs)
    } else if str_eq(name, "shinmeikai8") {
        Option::Some(AudioSource::Shinmeikai8)
    } else if str_eq(name, "nhk16") {
        Option::Some(AudioSource::Nhk16)
    } else if str_eq(name, "daijisen") {
        Option::Some(AudioSource::Daijisen)
    } else if str_eq(name, "jpod") {
        Option::Some(AudioSource::Jpod)
    } else if str_eq(name, "other") {
        Option::Some(AudioSource::Other)
    } else {
        Option::None
    }
}

/// Reads the content of the external priority list.  Recognised identifiers
/// are kept, one per line; when none remain the built-in default order is
/// used instead.
pub fn parse_sort_file(content: &str) -> (r: Vec<AudioSource>)
    ensures
        r@ == if parsed_sources(content@).len() == 0 {
            spec_default_order()
        } else {
            parsed_sources(content@)
        },
{
    let n = content.unicode_len();
    let mut out: Vec<AudioSource> = Vec::new();
    let mut pos: usize = 0;
    proof {
        assert(content@.skip(0) =~= content@);
        assert(out@ + parsed_sources(content@.skip(0)) =~= parsed_sources(content@.skip(0)));
    }
    while pos < n
        invariant
            n == content@.len(),
            0 <= pos <= n,
            parsed_sources(content@) == out@ + parsed_sources(content@.skip(pos as int)),
        decreases n - pos,
    {
        let mut e: usize = pos;
        while e < n
            invariant
                n == content@.len(),
                pos <= e <= n,
                forall|j: int| pos <= j < e ==> #[trigger] content@[j] != '\n',
            ensures
                pos <= e <= n,
                forall|j: int| pos <= j < e ==> #[trigger] content@[j] != '\n',
                e == n || content@[e as int] == '\n',
            decreases n - e,
        {
            if content.get_char(e) == '\n' {
                break;
            }
            e += 1;
        }
        let ghost rest = content@.skip(pos as int);
        proof {
            lemma_first_nl_at(rest, e - pos);
            assert(rest.take(e - pos) =~= content@.subrange(pos as int, e as int));
        }
        let line = content.substring_char(pos, e);
        let t = trim_str(line);
        let parsed = known_source(t.as_str());
        let ghost out0 = out@;
        match parsed {
            Option::Some(src) => {
                out.push(src);
            },
            Option::None => {},
        }
        let next_pos = if e < n {
            e + 1
        } else {
            n
        };
        proof {
            let nl = first_nl(rest) as int;
            assert(nl == e - pos);
            let ghost rest2 = content@.skip(next_pos as int);
            if e < n {
                assert(rest.skip(nl + 1) =~= rest2);
                assert(split_lines(rest) == seq![rest.take(nl)] + split_lines(rest2));
            } else {
                assert(rest.len() > 0);
                assert(split_lines(rest) == seq![rest]);
                assert(rest.take(nl) =~= rest);
                assert(split_lines(rest2) =~= Seq::<Seq<char>>::empty());
                assert(split_lines(rest) =~= seq![rest.take(nl)] + split_lines(rest2));
            }
            let tr = |l: Seq<char>| trimmed(l);
            let kn = |l: Seq<char>| spec_known_source(l);
            assert((seq![rest.take(nl)] + split_lines(rest2)).map_values(tr) =~= seq![
                trimmed(rest.take(nl)),
            ] + split_lines(rest2).map_values(tr));
            lemma_filter_map_add(seq![trimmed(rest.take(nl))], split_lines(rest2).map_values(tr), kn);
            Seq::lemma_filter_map_singleton(trimmed(rest.take(nl)), kn);
            assert(t@ == trimmed(rest.take(nl)));
            match parsed {
                Option::Some(src) => {
                    assert(parsed_sources(rest) =~= seq![src] + parsed_sources(rest2));
                    assert(out@ + parsed_sources(rest2) =~= out0 + parsed_sources(rest));
                },
                Option::None => {
                    assert(parsed_sources(rest) =~= parsed_sources(rest2));
                },
            }
        }
        pos = next_pos;
    }
    proof {
        assert(content@.skip(n as int).len() == 0);
        assert(parsed_sources(content@) =~= out@);
    }
    if out.len() == 0 {
        default_order()
    } else {
        out
    }
}

/// The predicate selecting entries whose source has rank `k`.
pub open spec fn rank_pred(order: Seq<AudioSource>, k: int) -> spec_fn(EntryModel) -> bool {
    |m: EntryModel| rank_in(order, m.source) == k
}

/// The models of `s` with every file reference normalized.
pub open spec fn normalized_models(s: Seq<EntryModel>) -> Seq<EntryModel> {
    s.map_values(|m: EntryModel| normalized_entry(m))
}

/// The concatenation of the rank buckets `0 .. k` of `input`, each bucket
/// keeping its entries in input order.
pub open spec fn rank_buckets(input: Seq<EntryModel>, order: Seq<AudioSource>, k: int) -> Seq<
    EntryModel,
>
    decreases k,
{
    if k <= 0 {
        Seq::empty()
    } else {
        rank_buckets(input, order, k - 1) + input.filter(rank_pred(order, k - 1))
    }
}

/// `input` stably sorted by source rank: listed sources in priority order
/// first, unlisted sources last, ties kept in input order.
pub open spec fn stable_sorted_by_rank(input: Seq<EntryModel>, order: Seq<AudioSource>) -> Seq<
    EntryModel,
> {
    rank_buckets(input, order, order.len() as int + 1)
}

proof fn lemma_filter_none<A>(s: Seq<A>, pred: spec_fn(A) -> bool)
    requires
        forall|i: int| 0 <= i < s.len() ==> !pred(#[trigger] s[i]),
    ensures
        s.filter(pred) == Seq::<A>::empty(),
    decreases s.len(),
{
    reveal(Seq::filter);
    if s.len() > 0 {
        lemma_filter_none(s.drop_last(), pred);
    }
    assert(s.filter(pred) =~= Seq::<A>::empty());
}

proof fn lemma_filter_all<A>(s: Seq<A>, pred: spec_fn(A) -> bool)
    requires
        forall|i: int| 0 <= i < s.len() ==> pred(#[trigger] s[i]),
    ensures
        s.filter(pred) == s,
    decreases s.len(),
{
    reveal(Seq::filter);
    if s.len() > 0 {
        lemma_filter_all(s.drop_last(), pred);
        assert(s.drop_last().filter(pred).push(s.last()) =~= s);
    }
}

proof fn lemma_buckets_ranks(input: Seq<EntryModel>, order: Seq<AudioSource>, k: int)
    ensures
        forall|i: int|
            0 <= i < rank_buckets(input, order, k).len() ==> 0 <= rank_in(
                order,
                (#[trigger] rank_buckets(input, order, k)[i]).source,
            ) < k,
        forall|i: int, j: int|
            #![trigger rank_buckets(input, order, k)[i], rank_buckets(input, order, k)[j]]
            0 <= i <= j < rank_buckets(input, order, k).len() ==> rank_in(
                order,
                rank_buckets(input, order, k)[i].source,
            ) <= rank_in(order, rank_buckets(input, order, k)[j].source),
    decreases k,
{
    if k > 0 {
        lemma_buckets_ranks(input, order, k - 1);
        let prev = rank_buckets(input, order, k - 1);
        let bucket = input.filter(rank_pred(order, k - 1));
        let cur = rank_buckets(input, order, k);
        assert forall|i: int| 0 <= i < cur.len() implies 0 <= rank_in(
            order,
            (#[trigger] cur[i]).source,
        ) < k by {
            if i < prev.len() {
                assert(cur[i] == prev[i]);
            } else {
                assert(cur[i] == bucket[i - prev.len()]);
                Seq::lemma_filter_pred(input, rank_pred(order, k - 1), i - prev.len());
            }
        }
    }
}

proof fn lemma_buckets_filter(
    input: Seq<EntryModel>,
    order: Seq<AudioSource>,
    hi: int,
    k: int,
)
    ensures
        rank_buckets(input, order, hi).filter(rank_pred(order, k)) == if 0 <= k < hi {
            input.filter(rank_pred(order, k))
        } else {
            Seq::<EntryModel>::empty()
        },
    decreases hi,
{
    let pk = rank_pred(order, k);
    if hi <= 0 {
        lemma_filter_none(rank_buckets(input, order, hi), pk);
    } else {
        lemma_buckets_filter(input, order, hi - 1, k);
        let prev = rank_buckets(input, order, hi - 1);
        let bucket = input.filter(rank_pred(order, hi - 1));
        Seq::filter_distributes_over_add(prev, bucket, pk);
        assert forall|i: int| 0 <= i < bucket.len() implies rank_in(
            order,
            (#[trigger] bucket[i]).source,
        ) == hi - 1 by {
            Seq::lemma_filter_pred(input, rank_pred(order, hi - 1), i);
        }
        if k == hi - 1 {
            lemma_filter_all(bucket, pk);
            assert(prev.filter(pk) + bucket =~= bucket);
        } else {
            lemma_filter_none(bucket, pk);
            if 0 <= k < hi - 1 {
                assert(input.filter(pk) + bucket.filter(pk) =~= input.filter(pk));
            } else {
                assert(prev.filter(pk) + bucket.filter(pk) =~= Seq::<EntryModel>::empty());
            }
        }
    }
}

/// Sortedness law: in the stably sorted sequence, ranks never decrease, so
/// every entry of a listed source comes before every entry of an unlisted
/// one.
pub proof fn lemma_stable_sort_sorted(input: Seq<EntryModel>, order: Seq<AudioSource>)
    ensures
        forall|i: int, j: int|
            #![trigger stable_sorted_by_rank(input, order)[i], stable_sorted_by_rank(input, order)[j]]
            0 <= i <= j < stable_sorted_by_rank(input, order).len() ==> rank_in(
                order,
                stable_sorted_by_rank(input, order)[i].source,
            ) <= rank_in(order, stable_sorted_by_rank(input, order)[j].source),
{
    lemma_buckets_ranks(input, order, order.len() as int + 1);
}

/// Stability law: for every rank, the entries of that rank appear in the
/// sorted sequence exactly as they appear in the input — same entries, same
/// relative order.
pub proof fn lemma_stable_sort_stable(input: Seq<EntryModel>, order: Seq<AudioSource>, k: int)
    requires
        0 <= k <= order.len(),
    ensures
        stable_sorted_by_rank(input, order).filter(rank_pred(order, k)) == input.filter(
            rank_pred(order, k),
        ),
{
    lemma_buckets_filter(input, order, order.len() as int + 1, k);
}

proof fn lemma_filter_multiset_count<A>(s: Seq<A>, pred: spec_fn(A) -> bool, e: A)
    ensures
        s.filter(pred).to_multiset().count(e) == if pred(e) {
            s.to_multiset().count(e)
        } else {
            0
        },
    decreases s.len(),
{
    broadcast use vstd::seq_lib::group_to_multiset_ensures;

    reveal(Seq::filter);
    if s.len() > 0 {
        lemma_filter_multiset_count(s.drop_last(), pred, e);
        assert(s =~= s.drop_last().push(s.last()));
        if pred(s.last()) {
            assert(s.drop_last().filter(pred).push(s.last()).to_multiset() =~= s.drop_last().filter(
                pred,
            ).to_multiset().insert(s.last()));
        }
    }
}

proof fn lemma_buckets_multiset_count(
    input: Seq<EntryModel>,
    order: Seq<AudioSource>,
    hi: int,
    e: EntryModel,
)
    ensures
        rank_buckets(input, order, hi).to_multiset().count(e) == if 0 <= rank_in(order, e.source)
            < hi {
            input.to_multiset().count(e)
        } else {
            0
        },
    decreases hi,
{
    broadcast use vstd::seq_lib::group_to_multiset_ensures;

    if hi <= 0 {
    } else {
        lemma_buckets_multiset_count(input, order, hi - 1, e);
        let prev = rank_buckets(input, order, hi - 1);
        let bucket = input.filter(rank_pred(order, hi - 1));
        vstd::seq_lib::lemma_multiset_commutative(prev, bucket);
        lemma_filter_multiset_count(input, rank_pred(order, hi - 1), e);
    }
}

/// The stably sorted sequence is a permutation of the input: the same
/// entries, each exactly as often.
pub proof fn lemma_stable_sort_permutes(input: Seq<EntryModel>, order: Seq<AudioSource>)
    ensures
        stable_sorted_by_rank(input, order).to_multiset() == input.to_multiset(),
{
    let s = stable_sorted_by_rank(input, order);
    assert forall|e: EntryModel| s.to_multiset().count(e) == input.to_multiset().count(e) by {
        lemma_buckets_multiset_count(input, order, order.len() as int + 1, e);
        lemma_rank_in_props(order, e.source);
    }
    assert(s.to_multiset() =~= input.to_multiset());
}

/// Entries whose source is absent from the priority order sort after every
/// entry whose source is listed.
pub proof fn lemma_unlisted_sort_last(input: Seq<EntryModel>, order: Seq<AudioSource>)
    ensures
        forall|i: int, j: int|
            #![trigger stable_sorted_by_rank(input, order)[i], stable_sorted_by_rank(input, order)[j]]
            0 <= i <= j < stable_sorted_by_rank(input, order).len() && !order.contains(
                stable_sorted_by_rank(input, order)[i].source,
            ) ==> !order.contains(stable_sorted_by_rank(input, order)[j].source),
{
    lemma_stable_sort_sorted(input, order);
    let s = stable_sorted_by_rank(input, order);
    assert forall|i: int, j: int|
        #![trigger s[i], s[j]]
        0 <= i <= j < s.len() && !order.contains(s[i].source) implies !order.contains(
        s[j].source,
    ) by {
        lemma_rank_lt_len_iff_listed(order, s[i].source);
        lemma_rank_lt_len_iff_listed(order, s[j].source);
    }
}

/// Strips the stored directory prefix from every entry's file reference,
/// in place.
///
/// Relies on rayon's parallel mutable iteration over a `Vec`: the closure —
/// the verified per-entry prefix strip — is applied to every element, each
/// exactly once, elements staying in place.
#[verifier::external_body]
fn normalize_all(entries: &mut Vec<DatabaseEntry>)
    ensures
        entry_models(final(entries)@) == normalized_models(entry_models(old(entries)@)),
{
    entries.par_iter_mut().for_each(|e| e.strip_folder_name_prefix());
}

fn push_rank_bucket(
    out: &mut Vec<DatabaseEntry>,
    combined: &Vec<DatabaseEntry>,
    order: &Vec<AudioSource>,
    k: usize,
)
    ensures
        entry_models(final(out)@) == entry_models(old(out)@) + entry_models(combined@).filter(
            rank_pred(order@, k as int),
        ),
{
    let ghost pk = rank_pred(order@, k as int);
    let n = combined.len();
    let mut i: usize = 0;
    proof {
        reveal(Seq::filter);
        assert(entry_models(combined@.take(0)) =~= Seq::<EntryModel>::empty());
        assert(entry_models(out@) =~= entry_models(out@) + entry_models(combined@.take(0)).filter(
            pk,
        ));
    }
    while i < n
        invariant
            n == combined@.len(),
            0 <= i <= n,
            pk == rank_pred(order@, k as int),
            entry_models(out@) == entry_models(old(out)@) + entry_models(
                combined@.take(i as int),
            ).filter(pk),
        decreases n - i,
    {
        let r = rank_of(order, combined[i].source);
        let ghost prev = entry_models(combined@.take(i as int));
        let ghost cur = entry_models(combined@.take(i + 1));
        proof {
            reveal(Seq::filter);
            assert(cur.drop_last() =~= prev);
            assert(cur.last() == combined@[i as int]@);
        }
        if r == k {
            let ghost out_before = out@;
            out.push(combined[i].clone());
            proof {
                assert(entry_models(out@) =~= entry_models(out_before).push(combined@[i as int]@));
                assert(cur.filter(pk) =~= prev.filter(pk).push(cur.last()));
                assert(entry_models(out@) =~= entry_models(old(out)@) + cur.filter(pk));
            }
        } else {
            proof {
                assert(cur.filter(pk) =~= prev.filter(pk));
            }
        }
        i += 1;
    }
    proof {
        assert(combined@.take(n as int) =~= combined@);
    }
}

/// Combines the primary and supplementary result sets: every entry's file
/// reference is normalized, and the concatenation is stably sorted by each
/// source's rank in the priority order.
pub fn merge_entries(
    dict: Vec<DatabaseEntry>,
    forvo: Vec<DatabaseEntry>,
    order: &Vec<AudioSource>,
) -> (r: Vec<DatabaseEntry>)
    ensures
        entry_models(r@) == stable_sorted_by_rank(
            normalized_models(entry_models(dict@)) + normalized_models(entry_models(forvo@)),
            order@,
        ),
{
    let ghost d0 = dict@;
    let ghost f0 = forvo@;
    let mut combined = dict;
    let mut forvo = forvo;
    combined.append(&mut forvo);
    proof {
        assert(entry_models(combined@) =~= entry_models(d0) + entry_models(f0));
        assert(normalized_models(entry_models(d0) + entry_models(f0)) =~= normalized_models(
            entry_models(d0),
        ) + normalized_models(entry_models(f0)));
    }
    normalize_all(&mut combined);
    let ghost input = entry_models(combined@);
    proof {
        assert(input =~= normalized_models(entry_models(d0)) + normalized_models(
            entry_models(f0),
        ));
    }
    let mut out: Vec<DatabaseEntry> = Vec::new();
    let nk = order.len();
    let mut k: usize = 0;
    while k < nk
        invariant
            nk == order@.len(),
            0 <= k <= nk,
            input == entry_models(combined@),
            entry_models(out@) == rank_buckets(input, order@, k as int),
        decreases nk - k,
    {
        push_rank_bucket(&mut out, &combined, order, k);
        k += 1;
    }
    push_rank_bucket(&mut out, &combined, order, nk);
    proof {
        assert(entry_models(out@) == rank_buckets(input, order@, nk + 1));
    }
    out
}

} // verus!
