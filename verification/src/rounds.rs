//! The round builders: from a list of records to one of the three quiz
//! presentations. Shuffling goes through the process-wide random generator,
//! so contracts state what holds of every outcome: the output is a
//! rearrangement of what went in.

use vstd::prelude::*;
use vstd::multiset::Multiset;
use rand::seq::SliceRandom;

use crate::model::EntryModel;
use crate::model::Level1Question;
use crate::model::Level1Round;
use crate::model::Level2Round;
use crate::model::Level3Round;
use crate::model::QuestionModel;
use crate::model::RoundError;
use crate::model::StudyEntry;
use crate::text::is_blank_str;
use crate::text::trim;

verus! {

broadcast use {vstd::seq_lib::group_to_multiset_ensures, vstd::multiset::group_multiset_axioms};

/// The name pool of a record list, in order.
pub open spec fn entry_names(entries: Seq<EntryModel>) -> Seq<Seq<char>> {
    entries.map_values(|e: EntryModel| e.name)
}

/// The distractor pool for one record: every name in the pool other than
/// its own, duplicates kept.
pub open spec fn names_other_than(names: Seq<Seq<char>>, own: Seq<char>) -> Seq<Seq<char>> {
    names.filter(|n: Seq<char>| n != own)
}

/// A record is eligible for the filtered round when its swallowing role does
/// not trim to nothing.
pub open spec fn has_role(e: EntryModel) -> bool {
    trim(e.role_in_swallowing).len() > 0
}

/// The eligible records of a list, in order.
pub open spec fn eligible_entries(entries: Seq<EntryModel>) -> Seq<EntryModel> {
    entries.filter(|e: EntryModel| has_role(e))
}

/// What one multiple-choice question guarantees against the name pool of
/// the whole input: the record's own name stands among the options exactly
/// once; the option count is one more than the distractors drawn (up to
/// three, fewer when the pool runs out); every option is a name from the
/// pool; and the options are drawn without replacement, so they form a
/// sub-multiset of the pool plus the own name.
pub open spec fn question_ok(q: QuestionModel, names: Seq<Seq<char>>) -> bool {
    let pool = names_other_than(names, q.entry.name);
    &&& q.name_options.to_multiset().count(q.entry.name) == 1
    &&& q.name_options.len() == 1 + (if pool.len() < 3 {
        pool.len()
    } else {
        3
    })
    &&& forall|j: int| 0 <= j < q.name_options.len() ==> names.contains(#[trigger] q.name_options[j])
    &&& q.name_options.to_multiset().subset_of(pool.to_multiset().insert(q.entry.name))
}

/// What a whole multiple-choice round guarantees: one question per input
/// record, the questioned records a rearrangement of the input, and every
/// question well formed against the input's name pool.
pub open spec fn valid_level1_round(qs: Seq<QuestionModel>, input: Seq<EntryModel>) -> bool {
    &&& qs.len() == input.len()
    &&& qs.map_values(|q: QuestionModel| q.entry).to_multiset() == input.to_multiset()
    &&& forall|i: int| 0 <= i < qs.len() ==> question_ok(#[trigger] qs[i], entry_names(input))
}

proof fn lemma_other_names_push(names: Seq<Seq<char>>, own: Seq<char>, x: Seq<char>)
    ensures
        names_other_than(names.push(x), own) == if x != own {
            names_other_than(names, own).push(x)
        } else {
            names_other_than(names, own)
        },
{
    reveal_with_fuel(Seq::filter, 2);
    assert(names.push(x).drop_last() =~= names);
    assert(names.push(x).last() == x);
}

/// Every distractor stands in the pool and differs from the owner's name.
proof fn lemma_other_names_element(names: Seq<Seq<char>>, own: Seq<char>, i: int)
    requires
        0 <= i < names_other_than(names, own).len(),
    ensures
        names.contains(names_other_than(names, own)[i]),
        names_other_than(names, own)[i] != own,
    decreases names.len(),
{
    if names.len() > 0 {
        lemma_other_names_push(names.drop_last(), own, names.last());
        assert(names.drop_last().push(names.last()) =~= names);
        let r = names_other_than(names, own);
        let rd = names_other_than(names.drop_last(), own);
        if names.last() != own && i == rd.len() {
            assert(r[i] == names.last());
            assert(names[names.len() - 1] == names.last());
        } else {
            lemma_other_names_element(names.drop_last(), own, i);
            let j = choose|j: int|
                0 <= j < names.drop_last().len() && names.drop_last()[j] == rd[i];
            assert(names[j] == rd[i]);
        }
    }
}

proof fn lemma_eligible_push(entries: Seq<EntryModel>, e: EntryModel)
    ensures
        eligible_entries(entries.push(e)) == if has_role(e) {
            eligible_entries(entries).push(e)
        } else {
            eligible_entries(entries)
        },
{
    reveal_with_fuel(Seq::filter, 2);
    assert(entries.push(e).drop_last() =~= entries);
    assert(entries.push(e).last() == e);
}

/// A rearrangement keeps membership in a name pool.
proof fn lemma_rearranged_members(a: Seq<Seq<char>>, b: Seq<Seq<char>>, names: Seq<Seq<char>>)
    requires
        a.to_multiset() == b.to_multiset(),
        forall|x: int| 0 <= x < b.len() ==> names.contains(#[trigger] b[x]),
    ensures
        forall|x: int| 0 <= x < a.len() ==> names.contains(#[trigger] a[x]),
{
    assert forall|x: int| 0 <= x < a.len() implies names.contains(a[x]) by {
        assert(a.contains(a[x]));
        assert(b.to_multiset().count(a[x]) > 0);
        assert(b.contains(a[x]));
        let j = choose|j: int| 0 <= j < b.len() && b[j] == a[x];
        assert(names.contains(b[j]));
    }
}

/// A prefix of a sequence forms a sub-multiset of the whole.
proof fn lemma_take_submultiset<A>(s: Seq<A>, n: int)
    requires
        0 <= n <= s.len(),
    ensures
        s.take(n).to_multiset().subset_of(s.to_multiset()),
{
    assert(s =~= s.take(n) + s.skip(n));
    vstd::seq_lib::lemma_multiset_commutative(s.take(n), s.skip(n));
}

/// Relies on rand's `SliceRandom::shuffle` (a Fisher-Yates walk of in-place
/// swaps over the process-wide generator): it reorders the elements and
/// neither adds, drops nor alters any.
#[verifier::external_body]
fn shuffle_in_place<T: DeepView>(v: &mut Vec<T>)
    ensures
        final(v)@.len() == old(v)@.len(),
        final(v).deep_view().to_multiset() == old(v).deep_view().to_multiset(),
{
    v.as_mut_slice().shuffle(&mut rand::thread_rng());
}

fn copy_entry(e: &StudyEntry) -> (r: StudyEntry)
    ensures
        r@ == e@,
{
    StudyEntry {
        name: e.name.clone(),
        type_value: e.type_value,
        function: e.function.clone(),
        role_in_swallowing: e.role_in_swallowing.clone(),
        order: e.order,
    }
}

#[verifier::loop_isolation(false)]
fn copy_entries(entries: &Vec<StudyEntry>) -> (r: Vec<StudyEntry>)
    ensures
        r@.len() == entries@.len(),
        r.deep_view() == entries.deep_view(),
{
    let ghost dv = entries.deep_view();
    let mut r: Vec<StudyEntry> = Vec::new();
    let mut i: usize = 0;
    while i < entries.len()
        invariant
            i <= entries@.len(),
            r@.len() == i,
            r.deep_view() == dv.take(i as int),
        decreases entries@.len() - i,
    {
        let ghost prev = r.deep_view();
        let e = copy_entry(&entries[i]);
        r.push(e);
        proof {
            assert(r.deep_view() =~= prev.push(dv[i as int]));
            assert(dv.take(i + 1) =~= dv.take(i as int).push(dv[i as int]));
        }
        i = i + 1;
    }
    proof {
        assert(dv.take(entries@.len() as int) =~= dv);
    }
    r
}

/// Builds the multiple-choice round: the records in a fresh random order,
/// each with its options — its own name and up to three distinct draws from
/// the other names of the full input pool — in a random order.
#[verifier::loop_isolation(false)]
pub fn build_level1_round(entries: &Vec<StudyEntry>) -> (round: Level1Round)
    ensures
        round.questions@.len() == entries@.len(),
        valid_level1_round(round.questions.deep_view(), entries.deep_view()),
{
    let ghost dv = entries.deep_view();
    let ghost names = entry_names(dv);
    let mut all_names: Vec<String> = Vec::new();
    let mut i: usize = 0;
    while i < entries.len()
        invariant
            i <= entries@.len(),
            all_names.deep_view() == entry_names(dv.take(i as int)),
        decreases entries@.len() - i,
    {
        let ghost prev = all_names.deep_view();
        let name = entries[i].name.clone();
        all_names.push(name);
        proof {
            assert(all_names.deep_view() =~= prev.push(dv[i as int].name));
            assert(dv.take(i + 1) =~= dv.take(i as int).push(dv[i as int]));
            assert(entry_names(dv.take(i + 1)) =~= entry_names(dv.take(i as int)).push(
                dv[i as int].name,
            ));
        }
        i = i + 1;
    }
    proof {
        assert(dv.take(entries@.len() as int) =~= dv);
    }
    let mut shuffled = copy_entries(entries);
    shuffle_in_place(&mut shuffled);
    let mut questions: Vec<Level1Question> = Vec::new();
    let mut k: usize = 0;
    while k < shuffled.len()
        invariant
            k <= shuffled@.len(),
            shuffled@.len() == entries@.len(),
            shuffled.deep_view().to_multiset() == dv.to_multiset(),
            all_names.deep_view() == names,
            questions@.len() == k,
            questions.deep_view().map_values(|q: QuestionModel| q.entry) == shuffled.deep_view()
                .take(k as int),
            forall|x: int| 0 <= x < k ==> question_ok(#[trigger] questions.deep_view()[x], names),
        decreases shuffled@.len() - k,
    {
        let entry = copy_entry(&shuffled[k]);
        let ghost own = entry@.name;
        proof {
            assert(shuffled.deep_view().contains(shuffled.deep_view()[k as int]));
            assert(dv.to_multiset().count(shuffled.deep_view()[k as int]) > 0);
            assert(dv.contains(shuffled.deep_view()[k as int]));
            let j = choose|j: int|
                0 <= j < dv.len() && dv[j] == shuffled.deep_view()[k as int];
            assert(names[j] == own);
            assert(names.contains(own));
        }
        let mut others: Vec<String> = Vec::new();
        let mut j: usize = 0;
        while j < all_names.len()
            invariant
                j <= all_names@.len(),
                others.deep_view() == names_other_than(names.take(j as int), own),
            decreases all_names@.len() - j,
        {
            proof {
                assert(names.take(j + 1) =~= names.take(j as int).push(names[j as int]));
                lemma_other_names_push(names.take(j as int), own, names[j as int]);
            }
            if !all_names[j].eq(&entry.name) {
                let ghost prev = others.deep_view();
                let name = all_names[j].clone();
                others.push(name);
                proof {
                    assert(others.deep_view() =~= prev.push(names[j as int]));
                }
            }
            j = j + 1;
        }
        proof {
            assert(names.take(names.len() as int) =~= names);
        }
        let ghost pool = names_other_than(names, own);
        shuffle_in_place(&mut others);
        proof {
            assert forall|x: int| 0 <= x < others.deep_view().len() implies names.contains(
                #[trigger] others.deep_view()[x],
            ) && others.deep_view()[x] != own by {
                assert(others.deep_view().contains(others.deep_view()[x]));
                assert(pool.to_multiset().count(others.deep_view()[x]) > 0);
                assert(pool.contains(others.deep_view()[x]));
                let y = choose|y: int| 0 <= y < pool.len() && pool[y] == others.deep_view()[x];
                lemma_other_names_element(names, own, y);
            }
        }
        let mut options: Vec<String> = Vec::new();
        let first = entry.name.clone();
        options.push(first);
        proof {
            assert(options.deep_view() =~= Seq::<Seq<char>>::empty().push(own));
            assert(Seq::<Seq<char>>::empty().push(own).to_multiset() =~= Multiset::<
                Seq<char>,
            >::empty().insert(own));
            assert(others.deep_view().take(0) =~= Seq::<Seq<char>>::empty());
        }
        let take_n = if others.len() < 3 {
            others.len()
        } else {
            3
        };
        let mut t: usize = 0;
        while t < take_n
            invariant
                t <= take_n,
                take_n <= others@.len(),
                options@.len() == 1 + t,
                options.deep_view().to_multiset().count(own) == 1,
                options.deep_view().to_multiset() == others.deep_view().take(
                    t as int,
                ).to_multiset().insert(own),
                forall|x: int|
                    0 <= x < options.deep_view().len() ==> names.contains(
                        #[trigger] options.deep_view()[x],
                    ),
            decreases take_n - t,
        {
            let ghost prev = options.deep_view();
            let name = others[t].clone();
            options.push(name);
            proof {
                let elem = others.deep_view()[t as int];
                assert(options.deep_view() =~= prev.push(elem));
                assert(elem != own);
                assert(others.deep_view().take(t + 1) =~= others.deep_view().take(
                    t as int,
                ).push(elem));
                assert(others.deep_view().take(t as int).to_multiset().insert(own).insert(elem)
                    =~= others.deep_view().take(t as int).to_multiset().insert(elem).insert(
                    own,
                ));
            }
            t = t + 1;
        }
        let ghost before = options.deep_view();
        shuffle_in_place(&mut options);
        proof {
            lemma_rearranged_members(options.deep_view(), before, names);
            lemma_take_submultiset(others.deep_view(), take_n as int);
            assert(options.deep_view().to_multiset().subset_of(
                pool.to_multiset().insert(own),
            ));
        }
        let ghost prevq = questions.deep_view();
        questions.push(Level1Question { entry, name_options: options });
        proof {
            let q = questions.deep_view()[k as int];
            assert(questions.deep_view() =~= prevq.push(q));
            assert(q.entry == shuffled.deep_view()[k as int]);
            assert(q.name_options.len() == 1 + take_n);
            assert(question_ok(q, names));
            assert(questions.deep_view().map_values(|q: QuestionModel| q.entry) =~= shuffled
                .deep_view().take(k + 1));
        }
        k = k + 1;
    }
    proof {
        assert(shuffled.deep_view().take(shuffled@.len() as int) =~= shuffled.deep_view());
        assert(questions.deep_view().map_values(|q: QuestionModel| q.entry).to_multiset()
            == dv.to_multiset());
    }
    Level1Round { questions }
}

/// Builds the plain shuffled round: the same records in a fresh uniformly
/// random order, nothing filtered and nothing changed.
pub fn build_level2_round(entries: &Vec<StudyEntry>) -> (round: Level2Round)
    ensures
        round.entries@.len() == entries@.len(),
        round.entries.deep_view().to_multiset() == entries.deep_view().to_multiset(),
{
    let mut shuffled = copy_entries(entries);
    shuffle_in_place(&mut shuffled);
    Level2Round { entries: shuffled }
}

/// Builds the filtered shuffled round: the records whose swallowing role is
/// non-blank, in a fresh random order; when none is eligible the round is
/// unavailable.
#[verifier::loop_isolation(false)]
pub fn build_level3_round(entries: &Vec<StudyEntry>) -> (r: Result<Level3Round, RoundError>)
    ensures
        match r {
            Result::Ok(round) => eligible_entries(entries.deep_view()).len() > 0
                && round.entries@.len() == eligible_entries(entries.deep_view()).len()
                && round.entries.deep_view().to_multiset() == eligible_entries(
                entries.deep_view(),
            ).to_multiset(),
            Result::Err(e) => e == RoundError::Unavailable && eligible_entries(
                entries.deep_view(),
            ).len() == 0,
        },
{
    let ghost dv = entries.deep_view();
    let mut keep: Vec<StudyEntry> = Vec::new();
    let mut i: usize = 0;
    while i < entries.len()
        invariant
            i <= entries@.len(),
            keep.deep_view() == eligible_entries(dv.take(i as int)),
        decreases entries@.len() - i,
    {
        proof {
            assert(dv.take(i + 1) =~= dv.take(i as int).push(dv[i as int]));
            lemma_eligible_push(dv.take(i as int), dv[i as int]);
        }
        if !is_blank_str(entries[i].role_in_swallowing.as_str()) {
            let ghost prev = keep.deep_view();
            let e = copy_entry(&entries[i]);
            keep.push(e);
            proof {
                assert(keep.deep_view() =~= prev.push(dv[i as int]));
            }
        }
        i = i + 1;
    }
    proof {
        assert(dv.take(entries@.len() as int) =~= dv);
    }
    if keep.len() == 0 {
        return Result::Err(RoundError::Unavailable);
    }
    shuffle_in_place(&mut keep);
    Result::Ok(Level3Round { entries: keep })
}

/// Builds the multiple-choice round, rejecting an empty input.
pub fn build_level1_round_checked(entries: &Vec<StudyEntry>) -> (r: Result<
    Level1Round,
    RoundError,
>)
    ensures
        match r {
            Result::Ok(round) => entries@.len() > 0 && valid_level1_round(
                round.questions.deep_view(),
                entries.deep_view(),
            ),
            Result::Err(e) => e == RoundError::EmptyInput && entries@.len() == 0,
        },
{
    if entries.len() == 0 {
        Result::Err(RoundError::EmptyInput)
    } else {
        Result::Ok(build_level1_round(entries))
    }
}

/// Builds the plain shuffled round, rejecting an empty input.
pub fn build_level2_round_checked(entries: &Vec<StudyEntry>) -> (r: Result<
    Level2Round,
    RoundError,
>)
    ensures
        match r {
            Result::Ok(round) => entries@.len() > 0 && round.entries@.len() == entries@.len()
                && round.entries.deep_view().to_multiset() == entries.deep_view().to_multiset(),
            Result::Err(e) => e == RoundError::EmptyInput && entries@.len() == 0,
        },
{
    if entries.len() == 0 {
        Result::Err(RoundError::EmptyInput)
    } else {
        Result::Ok(build_level2_round(entries))
    }
}

} // verus!

