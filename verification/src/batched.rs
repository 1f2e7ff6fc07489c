//! Admission of one batched decode step, decided before the pool is touched.
//!
//! A step takes one token for each of `B` sessions.  It is refused when the
//! batch is empty, when a session appears twice, when a session is unknown to
//! the pool, or when the pool lacks the blocks the step would spend: the
//! blocks that appending one token to each row needs, plus one for each row
//! whose frontier block is shared and must be copied before it is written.
//! Nothing is appended unless the whole batch is admitted.

use vstd::prelude::*;
use vstd::string::*;
use crate::text::{decimal, decimal_spec};

verus! {

broadcast use vstd::string::group_string_axioms;

/// Why a step was refused.
#[derive(Clone, Copy, Debug, PartialEq, Eq, Structural)]
pub enum StepRejection {
    EmptyBatch,
    /// Rows `first` and `second` name the same session.
    DuplicateSession { first: usize, second: usize },
    /// Row `row` names a session the pool does not know.
    UnknownSession { row: usize },
    /// The step needs `need` blocks (`cow_splits` of them to break shared
    /// frontier blocks) and `have` are free.
    PoolExhausted { need: usize, cow_splits: usize, have: usize },
}

/// The first `j` at or after `from` with `s[j] == s[i]`.
pub open spec fn same_from(s: Seq<u64>, i: int, from: int) -> Option<int>
    decreases s.len() - from,
{
    if from < 0 || from >= s.len() {
        None
    } else if s[from] == s[i] {
        Some(from)
    } else {
        same_from(s, i, from + 1)
    }
}

/// The first pair `(i, j)`, `i < j`, of rows naming one session, in row order
/// of `i` and then of `j`, looking at `i` from `from` on.
pub open spec fn first_duplicate(s: Seq<u64>, from: int) -> Option<(int, int)>
    decreases s.len() - from,
{
    if from < 0 || from >= s.len() {
        None
    } else {
        match same_from(s, from, from + 1) {
            Some(j) => Some((from, j)),
            None => first_duplicate(s, from + 1),
        }
    }
}

/// The first row at or after `from` whose session is unknown.
pub open spec fn first_unknown(f: Seq<Option<usize>>, from: int) -> Option<int>
    decreases f.len() - from,
{
    if from < 0 || from >= f.len() {
        None
    } else if f[from] is None {
        Some(from)
    } else {
        first_unknown(f, from + 1)
    }
}

/// Rows among the first `n` whose write lands mid-block in a shared block.
pub open spec fn cow_count(pos: Seq<usize>, shared: Seq<bool>, bs: nat, n: int) -> nat
    decreases n,
{
    if n <= 0 {
        0
    } else {
        cow_count(pos, shared, bs, n - 1) + if (pos[n - 1] as nat) % bs != 0 && shared[n - 1] {
            1nat
        } else {
            0nat
        }
    }
}

/// The positions of rows whose sessions are all known.
pub open spec fn known_positions(f: Seq<Option<usize>>) -> Seq<usize> {
    f.map_values(|o: Option<usize>| o->0)
}

/// The admission decision.
pub open spec fn admit_spec(
    sessions: Seq<u64>,
    filled: Seq<Option<usize>>,
    shared: Seq<bool>,
    bs: nat,
    required: nat,
    free: nat,
) -> Result<Seq<usize>, StepRejection> {
    if sessions.len() == 0 {
        Err(StepRejection::EmptyBatch)
    } else {
        match first_duplicate(sessions, 0) {
            Some((i, j)) => Err(StepRejection::DuplicateSession { first: i as usize, second: j as usize }),
            None => match first_unknown(filled, 0) {
                Some(r) => Err(StepRejection::UnknownSession { row: r as usize }),
                None => {
                    let pos = known_positions(filled);
                    let cow = cow_count(pos, shared, bs, pos.len() as int);
                    if required + cow > free {
                        Err(
                            StepRejection::PoolExhausted {
                                need: (required + cow) as usize,
                                cow_splits: cow as usize,
                                have: free as usize,
                            },
                        )
                    } else {
                        Ok(pos)
                    }
                },
            },
        }
    }
}

proof fn lemma_same_none(s: Seq<u64>, i: int, from: int)
    requires
        0 <= from,
        forall|j: int| from <= j < s.len() ==> s[j] != s[i],
    ensures
        same_from(s, i, from) is None,
    decreases s.len() - from,
{
    if from < s.len() {
        lemma_same_none(s, i, from + 1);
    }
}

proof fn lemma_same_found(s: Seq<u64>, i: int, from: int, j: int)
    requires
        0 <= from <= j < s.len(),
        s[j] == s[i],
        forall|k: int| from <= k < j ==> s[k] != s[i],
    ensures
        same_from(s, i, from) == Some(j),
    decreases j - from,
{
    if from < j {
        lemma_same_found(s, i, from + 1, j);
    }
}

proof fn lemma_unknown_none(f: Seq<Option<usize>>, from: int)
    requires
        0 <= from,
        forall|j: int| from <= j < f.len() ==> f[j] is Some,
    ensures
        first_unknown(f, from) is None,
    decreases f.len() - from,
{
    if from < f.len() {
        lemma_unknown_none(f, from + 1);
    }
}

proof fn lemma_unknown_found(f: Seq<Option<usize>>, from: int, j: int)
    requires
        0 <= from <= j < f.len(),
        f[j] is None,
        forall|k: int| from <= k < j ==> f[k] is Some,
    ensures
        first_unknown(f, from) == Some(j),
    decreases j - from,
{
    if from < j {
        lemma_unknown_found(f, from + 1, j);
    }
}

proof fn lemma_cow_bound(pos: Seq<usize>, shared: Seq<bool>, bs: nat, n: int)
    requires
        0 <= n,
    ensures
        cow_count(pos, shared, bs, n) <= n,
    decreases n,
{
    if n > 0 {
        lemma_cow_bound(pos, shared, bs, n - 1);
    }
}

/// Decide whether one decode step over `sessions` may run.  `filled` is the
/// pool's fill of each row's session (`None`: unknown), `frontier_shared`
/// whether the block holding each row's last token is shared, `required` the
/// blocks that appending one token to every row allocates, and `free` the
/// pool's free blocks.  On admission, the positions at which each row's
/// token is written.
pub fn admit_step(
    sessions: &[u64],
    filled: &[Option<usize>],
    frontier_shared: &[bool],
    block_size: usize,
    required: usize,
    free: usize,
) -> (r: Result<Vec<usize>, StepRejection>)
    requires
        filled@.len() == sessions@.len(),
        frontier_shared@.len() == sessions@.len(),
        block_size > 0,
        required + sessions@.len() <= usize::MAX,
    ensures
        match admit_spec(
            sessions@,
            filled@,
            frontier_shared@,
            block_size as nat,
            required as nat,
            free as nat,
        ) {
            Ok(p) => r matches Ok(v) && v@ == p,
            Err(e) => r == Err::<Vec<usize>, StepRejection>(e),
        },
{
    let b = sessions.len();
    if b == 0 {
        return Err(StepRejection::EmptyBatch);
    }
    let ghost s = sessions@;
    let mut i: usize = 0;
    while i < b
        invariant
            b == s.len(),
            s == sessions@,
            i <= b,
            first_duplicate(s, 0) == first_duplicate(s, i as int),
        decreases b - i,
    {
        let mut j: usize = i + 1;
        while j < b
            invariant
                b == s.len(),
                s == sessions@,
                i < b,
                i + 1 <= j <= b,
                first_duplicate(s, 0) == first_duplicate(s, i as int),
                forall|k: int| i + 1 <= k < j ==> s[k] != s[i as int],
            decreases b - j,
        {
            if sessions[i] == sessions[j] {
                proof {
                    lemma_same_found(s, i as int, i + 1, j as int);
                }
                return Err(StepRejection::DuplicateSession { first: i, second: j });
            }
            j = j + 1;
        }
        proof {
            lemma_same_none(s, i as int, i + 1);
        }
        i = i + 1;
    }
    assert(first_duplicate(s, 0) is None);
    let ghost f = filled@;
    let mut positions: Vec<usize> = Vec::new();
    let mut k: usize = 0;
    while k < b
        invariant
            b == s.len(),
            b > 0,
            s == sessions@,
            first_duplicate(s, 0) is None,
            f == filled@,
            f.len() == b,
            k <= b,
            positions@.len() == k,
            forall|x: int| 0 <= x < k ==> (#[trigger] f[x]) is Some,
            forall|x: int| 0 <= x < k ==> #[trigger] positions@[x] == f[x]->0,
        decreases b - k,
    {
        match filled[k] {
            Some(p) => {
                assert(f[k as int] == Some(p));
                positions.push(p);
            },
            None => {
                proof {
                    lemma_unknown_found(f, 0, k as int);
                }
                return Err(StepRejection::UnknownSession { row: k });
            },
        }
        k = k + 1;
    }
    proof {
        lemma_unknown_none(f, 0);
    }
    let ghost pos = known_positions(f);
    assert(positions@ =~= pos);
    let ghost sh = frontier_shared@;
    let mut cow_splits: usize = 0;
    let mut q: usize = 0;
    while q < b
        invariant
            b == positions@.len(),
            sh == frontier_shared@,
            sh.len() == b,
            positions@ == pos,
            block_size > 0,
            q <= b,
            cow_splits == cow_count(pos, sh, block_size as nat, q as int),
            cow_splits <= q,
        decreases b - q,
    {
        if positions[q] % block_size != 0 && frontier_shared[q] {
            cow_splits = cow_splits + 1;
        }
        q = q + 1;
    }
    let need = required + cow_splits;
    if need > free {
        return Err(StepRejection::PoolExhausted { need, cow_splits, have: free });
    }
    Ok(positions)
}

/// The message of a refusal.
pub open spec fn rejection_message(e: StepRejection) -> Seq<char> {
    match e {
        StepRejection::EmptyBatch => "BatchedPagedDecoder::step: empty batch"@,
        StepRejection::DuplicateSession { first, second } =>
            "BatchedPagedDecoder::step: session appears twice in one batch (rows "@ + decimal_spec(
            first as nat,
        ) + " and "@ + decimal_spec(second as nat) + ")"@,
        StepRejection::UnknownSession { row } => "step: row "@ + decimal_spec(row as nat)
            + " references an unknown session"@,
        StepRejection::PoolExhausted { need, cow_splits, have } =>
            "BatchedPagedDecoder::step: pool exhausted \u{2014} this batch needs "@ + decimal_spec(
            need as nat,
        ) + " more block(s) ("@ + decimal_spec(cow_splits as nat)
            + " of them to break shared frontier blocks), "@ + decimal_spec(have as nat)
            + " free. Nothing was appended; evict or close a session and retry, or admit a smaller batch."@,
    }
}

impl StepRejection {
    /// The refusal's message.
    pub fn to_string(&self) -> (r: String)
        ensures
            r@ == rejection_message(*self),
    {
        match self {
            StepRejection::EmptyBatch => String::from_str("BatchedPagedDecoder::step: empty batch"),
            StepRejection::DuplicateSession { first, second } => {
                let mut s = String::from_str(
                    "BatchedPagedDecoder::step: session appears twice in one batch (rows ",
                );
                s.append(decimal(*first).as_str());
                s.append(" and ");
                s.append(decimal(*second).as_str());
                s.append(")");
                s
            },
            StepRejection::UnknownSession { row } => {
                let mut s = String::from_str("step: row ");
                s.append(decimal(*row).as_str());
                s.append(" references an unknown session");
                s
            },
            StepRejection::PoolExhausted { need, cow_splits, have } => {
                let mut s = String::from_str(
                    "BatchedPagedDecoder::step: pool exhausted \u{2014} this batch needs ",
                );
                s.append(decimal(*need).as_str());
                s.append(" more block(s) (");
                s.append(decimal(*cow_splits).as_str());
                s.append(" of them to break shared frontier blocks), ");
                s.append(decimal(*have).as_str());
                s.append(
                    " free. Nothing was appended; evict or close a session and retry, or admit a smaller batch.",
                );
                s
            },
        }
    }
}

/// An admitted step never spends more blocks than are free, counting the
/// copies that shared frontier blocks need.
pub proof fn law_admitted_step_fits(
    sessions: Seq<u64>,
    filled: Seq<Option<usize>>,
    shared: Seq<bool>,
    bs: nat,
    required: nat,
    free: nat,
)
    requires
        admit_spec(sessions, filled, shared, bs, required, free) is Ok,
    ensures
        required + cow_count(
            known_positions(filled),
            shared,
            bs,
            known_positions(filled).len() as int,
        ) <= free,
        sessions.len() > 0,
        first_duplicate(sessions, 0) is None,
        first_unknown(filled, 0) is None,
{
}


// ---------------------------------------------------------------------------
// Batched prefill
// ---------------------------------------------------------------------------

/// Why a batched prefill was refused.
#[derive(Clone, Copy, Debug, PartialEq, Eq, Structural)]
pub enum PrefillRejection {
    /// As many sessions as prompts are needed.
    CountMismatch { sessions: usize, prompts: usize },
    /// Nothing to prefill.
    Empty,
    /// Prompt `index` has no token.
    EmptyPrompt { index: usize },
    /// The pool cannot seat the prompts: `need` blocks, `free` free.
    PoolCannotSeat { need: usize, free: usize },
}

/// The first empty prompt at or after `from`.
pub open spec fn first_empty(lens: Seq<usize>, from: int) -> Option<int>
    decreases lens.len() - from,
{
    if from < 0 || from >= lens.len() {
        None
    } else if lens[from] == 0 {
        Some(from)
    } else {
        first_empty(lens, from + 1)
    }
}

/// The prefill decision, in the order the checks are made.
pub open spec fn prefill_spec(n_sessions: usize, lens: Seq<usize>, required: usize, free: usize) -> Option<
    PrefillRejection,
> {
    if n_sessions != lens.len() {
        Some(PrefillRejection::CountMismatch { sessions: n_sessions, prompts: lens.len() as usize })
    } else if n_sessions == 0 {
        Some(PrefillRejection::Empty)
    } else if first_empty(lens, 0) is Some {
        Some(PrefillRejection::EmptyPrompt { index: (first_empty(lens, 0)->0) as usize })
    } else if required > free {
        Some(PrefillRejection::PoolCannotSeat { need: required, free })
    } else {
        None
    }
}

/// The message of a prefill refusal.
pub open spec fn prefill_message(e: PrefillRejection) -> Seq<char> {
    match e {
        PrefillRejection::CountMismatch { sessions, prompts } => "prefill_batch: "@ + decimal_spec(
            sessions as nat,
        ) + " sessions but "@ + decimal_spec(prompts as nat) + " prompts"@,
        PrefillRejection::Empty => "prefill_batch: nothing to prefill"@,
        PrefillRejection::EmptyPrompt { index } => "prefill_batch: prompt "@ + decimal_spec(
            index as nat,
        ) + " is empty \u{2014} there is no token to feed"@,
        PrefillRejection::PoolCannotSeat { need, free } =>
            "prefill_batch: pool cannot seat these prompts \u{2014} need "@ + decimal_spec(need as nat)
            + " block(s), "@ + decimal_spec(free as nat) + " free"@,
    }
}

impl PrefillRejection {
    /// The refusal's message.
    pub fn to_string(&self) -> (r: String)
        ensures
            r@ == prefill_message(*self),
    {
        match self {
            PrefillRejection::CountMismatch { sessions, prompts } => {
                let mut s = String::from_str("prefill_batch: ");
                s.append(decimal(*sessions).as_str());
                s.append(" sessions but ");
                s.append(decimal(*prompts).as_str());
                s.append(" prompts");
                s
            },
            PrefillRejection::Empty => String::from_str("prefill_batch: nothing to prefill"),
            PrefillRejection::EmptyPrompt { index } => {
                let mut s = String::from_str("prefill_batch: prompt ");
                s.append(decimal(*index).as_str());
                s.append(" is empty \u{2014} there is no token to feed");
                s
            },
            PrefillRejection::PoolCannotSeat { need, free } => {
                let mut s = String::from_str(
                    "prefill_batch: pool cannot seat these prompts \u{2014} need ",
                );
                s.append(decimal(*need).as_str());
                s.append(" block(s), ");
                s.append(decimal(*free).as_str());
                s.append(" free");
                s
            },
        }
    }
}

/// Decide whether `n_sessions` sessions may be prefilled with prompts of
/// `prompt_lens` tokens, before any of them is fed: the counts must agree,
/// there must be something to feed and no prompt may be empty, and the pool
/// must seat the whole prefill at once (`required` blocks of `free`), so that
/// a batch never gets half way and strands.
pub fn prefill_precheck(n_sessions: usize, prompt_lens: &[usize], required: usize, free: usize) -> (r:
    Result<(), PrefillRejection>)
    ensures
        match prefill_spec(n_sessions, prompt_lens@, required, free) {
            Some(e) => r == Err::<(), PrefillRejection>(e),
            None => r is Ok,
        },
{
    if n_sessions != prompt_lens.len() {
        return Err(PrefillRejection::CountMismatch { sessions: n_sessions, prompts: prompt_lens.len() });
    }
    if n_sessions == 0 {
        return Err(PrefillRejection::Empty);
    }
    let mut i: usize = 0;
    while i < prompt_lens.len()
        invariant
            i <= prompt_lens@.len(),
            n_sessions == prompt_lens@.len(),
            n_sessions > 0,
            first_empty(prompt_lens@, 0) == first_empty(prompt_lens@, i as int),
        decreases prompt_lens@.len() - i,
    {
        if prompt_lens[i] == 0 {
            assert(first_empty(prompt_lens@, i as int) == Some(i as int));
            return Err(PrefillRejection::EmptyPrompt { index: i });
        }
        i = i + 1;
    }
    if required > free {
        return Err(PrefillRejection::PoolCannotSeat { need: required, free });
    }
    Ok(())
}

/// The rows still fed at prompt position `t`: those whose prompt is longer
/// than `t`, in row order.
pub fn prefill_rows(prompt_lens: &[usize], t: usize) -> (r: Vec<usize>)
    ensures
        r@ == Seq::new(prompt_lens@.len() as nat, |i: int| i).filter(|i: int| t < prompt_lens@[i]).map_values(
            |i: int| i as usize,
        ),
{
    let ghost all = Seq::new(prompt_lens@.len() as nat, |i: int| i);
    let ghost keep = |i: int| t < prompt_lens@[i];
    let mut out: Vec<usize> = Vec::new();
    let mut i: usize = 0;
    while i < prompt_lens.len()
        invariant
            i <= prompt_lens@.len(),
            all == Seq::new(prompt_lens@.len() as nat, |i: int| i),
            keep == (|i: int| t < prompt_lens@[i]),
            out@ == all.take(i as int).filter(keep).map_values(|i: int| i as usize),
        decreases prompt_lens@.len() - i,
    {
        proof {
            assert(all.take(i + 1).drop_last() =~= all.take(i as int));
            reveal(Seq::filter);
        }
        if t < prompt_lens[i] {
            out.push(i);
            assert(out@ =~= all.take(i + 1).filter(keep).map_values(|i: int| i as usize));
        } else {
            assert(out@ =~= all.take(i + 1).filter(keep).map_values(|i: int| i as usize));
        }
        i = i + 1;
    }
    assert(all.take(prompt_lens@.len() as int) =~= all);
    out
}

/// The length of the longest prompt: the number of feeding steps.
pub fn longest_prompt(prompt_lens: &[usize]) -> (r: usize)
    ensures
        forall|i: int| 0 <= i < prompt_lens@.len() ==> prompt_lens@[i] <= r,
        prompt_lens@.len() == 0 ==> r == 0,
        prompt_lens@.len() > 0 ==> exists|i: int| 0 <= i < prompt_lens@.len() && prompt_lens@[i] == r,
{
    let mut best: usize = 0;
    let mut i: usize = 0;
    while i < prompt_lens.len()
        invariant
            i <= prompt_lens@.len(),
            forall|j: int| 0 <= j < i ==> prompt_lens@[j] <= best,
            i == 0 ==> best == 0,
            i > 0 ==> exists|j: int| 0 <= j < i && prompt_lens@[j] == best,
        decreases prompt_lens@.len() - i,
    {
        if i == 0 || prompt_lens[i] > best {
            best = prompt_lens[i];
        }
        i = i + 1;
    }
    best
}

} // verus!
