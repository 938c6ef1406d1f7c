//! What a batch of commands makes of the live override file, with the file
//! taken as the sequence of overrides on its lines: adding an override that
//! the file holds changes nothing, adding another one appends it, and
//! removing an override takes out every line that holds it.

use crate::pihole::dns::{
    additions, fresh_batch, reconciliation, removals, BatchModel, CommandModel, OverridePair,
    OverrideVerb,
};
use vstd::prelude::*;

verus! {

/// The file without the lines that hold `pair`.
pub open spec fn without(file: Seq<OverridePair>, pair: OverridePair) -> Seq<OverridePair>
    decreases file.len(),
{
    if file.len() == 0 {
        file
    } else if file.last() == pair {
        without(file.drop_last(), pair)
    } else {
        without(file.drop_last(), pair).push(file.last())
    }
}

/// The file after one command that the gateway carried out.
pub open spec fn after_command(file: Seq<OverridePair>, command: CommandModel) -> Seq<
    OverridePair,
> {
    match command.verb {
        OverrideVerb::Add => if file.contains(command.pair) {
            file
        } else {
            file.push(command.pair)
        },
        OverrideVerb::Remove => without(file, command.pair),
    }
}

/// The file after a batch in which command `i` was carried out where
/// `succeeded[i]` holds and left the file alone where it failed.
pub open spec fn after_batch(
    file: Seq<OverridePair>,
    commands: Seq<CommandModel>,
    succeeded: Seq<bool>,
) -> Seq<OverridePair>
    decreases commands.len(),
{
    if commands.len() == 0 {
        file
    } else {
        let before = after_batch(file, commands.drop_last(), succeeded);
        if succeeded[commands.len() - 1] {
            after_command(before, commands.last())
        } else {
            before
        }
    }
}

/// The outcomes of a batch of `count` commands that all went well.
pub open spec fn all_succeeded(count: nat) -> Seq<bool> {
    Seq::new(count, |i: int| true)
}

/// The file after a batch of which every command was carried out.
pub open spec fn after_all(file: Seq<OverridePair>, commands: Seq<CommandModel>) -> Seq<
    OverridePair,
> {
    after_batch(file, commands, all_succeeded(commands.len()))
}

/// No override stands on two lines of the file.
pub open spec fn no_duplicates(file: Seq<OverridePair>) -> bool {
    forall|i: int, j: int| 0 <= i < j < file.len() ==> file[i] != file[j]
}

/// The commands that a batch hands out from now on, when the outcome of
/// each is noted before the next is asked for.
pub open spec fn issued_from(batch: BatchModel, outcomes: Seq<bool>) -> Seq<CommandModel>
    decreases batch.commands.len() - batch.issued,
{
    match batch.pending() {
        Some(command) => seq![command] + issued_from(
            batch.advanced().noted(outcomes[batch.issued as int]),
            outcomes,
        ),
        None => Seq::empty(),
    }
}

/// What is left of `file` once `pair` is removed holds `pair` no more and
/// every other override exactly where `file` holds it.
pub proof fn lemma_without(file: Seq<OverridePair>, pair: OverridePair)
    ensures
        !without(file, pair).contains(pair),
        forall|other: OverridePair|
            other != pair ==> (#[trigger] without(file, pair).contains(other) <==> file.contains(
                other,
            )),
        without(file, pair).len() <= file.len(),
    decreases file.len(),
{
    let rest = without(file, pair);
    if file.len() > 0 {
        let head = file.drop_last();
        lemma_without(head, pair);
        let shorter = without(head, pair);
        if file.last() == pair {
            assert forall|other: OverridePair| other != pair implies (#[trigger] rest.contains(
                other,
            ) <==> file.contains(other)) by {
                if file.contains(other) {
                    let i = choose|i: int| 0 <= i < file.len() && file[i] == other;
                    assert(head[i] == other);
                }
                if head.contains(other) {
                    let i = choose|i: int| 0 <= i < head.len() && head[i] == other;
                    assert(file[i] == other);
                }
            }
        } else {
            if rest.contains(pair) {
                let i = choose|i: int| 0 <= i < rest.len() && rest[i] == pair;
                assert(shorter[i] == pair);
            }
            assert forall|other: OverridePair| other != pair implies (#[trigger] rest.contains(
                other,
            ) <==> file.contains(other)) by {
                if rest.contains(other) {
                    let i = choose|i: int| 0 <= i < rest.len() && rest[i] == other;
                    if i < shorter.len() {
                        assert(shorter[i] == other);
                        assert(shorter.contains(other));
                        let k = choose|k: int| 0 <= k < head.len() && head[k] == other;
                        assert(file[k] == other);
                    } else {
                        assert(file[file.len() - 1] == other);
                    }
                }
                if file.contains(other) {
                    let i = choose|i: int| 0 <= i < file.len() && file[i] == other;
                    if i < head.len() {
                        assert(head[i] == other);
                        assert(shorter.contains(other));
                        let k = choose|k: int| 0 <= k < shorter.len() && shorter[k] == other;
                        assert(rest[k] == other);
                    } else {
                        assert(rest[rest.len() - 1] == other);
                    }
                }
            }
        }
    }
}

/// A batch goes on by one command at a time.
pub proof fn lemma_batch_step(
    file: Seq<OverridePair>,
    commands: Seq<CommandModel>,
    succeeded: Seq<bool>,
    count: int,
)
    requires
        0 <= count < commands.len(),
    ensures
        after_batch(file, commands.take(count + 1), succeeded) == if succeeded[count] {
            after_command(after_batch(file, commands.take(count), succeeded), commands[count])
        } else {
            after_batch(file, commands.take(count), succeeded)
        },
{
    let longer = commands.take(count + 1);
    assert(longer.drop_last() == commands.take(count));
    assert(longer.last() == commands[count]);
}

/// Once every override that the file holds has been removed, the file holds
/// none.
pub proof fn lemma_flush_empties(file: Seq<OverridePair>)
    ensures
        after_all(file, removals(file)) == Seq::<OverridePair>::empty(),
{
    let commands = removals(file);
    let succeeded = all_succeeded(commands.len());
    lemma_flush_progress(file, file.len() as int);
    assert(commands.take(file.len() as int) == commands);
    let left = after_batch(file, commands, succeeded);
    if left.len() > 0 {
        assert(left.contains(left[0]));
        let i = choose|i: int| 0 <= i < file.len() && file[i] == left[0];
        assert(false);
    }
    assert(left =~= Seq::<OverridePair>::empty());
}

/// After the removals of the first `count` overrides of the file, what is
/// left was in the file and is none of those.
proof fn lemma_flush_progress(file: Seq<OverridePair>, count: int)
    requires
        0 <= count <= file.len(),
    ensures
        forall|pair: OverridePair| #[trigger]
            after_batch(
                file,
                removals(file).take(count),
                all_succeeded(file.len()),
            ).contains(pair) ==> file.contains(pair) && forall|i: int|
                0 <= i < count ==> file[i] != pair,
    decreases count,
{
    let commands = removals(file);
    let succeeded = all_succeeded(file.len());
    if count == 0 {
        assert(commands.take(0) =~= Seq::<CommandModel>::empty());
    } else {
        lemma_flush_progress(file, count - 1);
        lemma_batch_step(file, commands, succeeded, count - 1);
        let before = after_batch(file, commands.take(count - 1), succeeded);
        let after = after_batch(file, commands.take(count), succeeded);
        assert(after == without(before, file[count - 1]));
        lemma_without(before, file[count - 1]);
        assert forall|pair: OverridePair| #[trigger] after.contains(pair) implies file.contains(
            pair,
        ) && forall|i: int| 0 <= i < count ==> file[i] != pair by {
            assert(pair != file[count - 1]);
            assert(before.contains(pair));
        }
    }
}

/// A batch after another is one batch.
pub proof fn lemma_batches_in_a_row(
    file: Seq<OverridePair>,
    first: Seq<CommandModel>,
    second: Seq<CommandModel>,
)
    ensures
        after_all(file, first + second) == after_all(after_all(file, first), second),
    decreases second.len(),
{
    let whole = first + second;
    if second.len() == 0 {
        assert(whole == first);
    } else {
        let head = second.drop_last();
        lemma_batches_in_a_row(file, first, head);
        assert(whole.drop_last() == first + head);
        assert(whole.last() == second.last());
        lemma_outcomes_beyond(
            file,
            first + head,
            all_succeeded(whole.len()),
            all_succeeded((first + head).len()),
        );
        lemma_outcomes_beyond(
            after_all(file, first),
            head,
            all_succeeded(second.len()),
            all_succeeded(head.len()),
        );
    }
}

/// Only the outcomes of the commands of a batch bear on what it leaves.
pub proof fn lemma_outcomes_beyond(
    file: Seq<OverridePair>,
    commands: Seq<CommandModel>,
    left: Seq<bool>,
    right: Seq<bool>,
)
    requires
        forall|i: int| 0 <= i < commands.len() ==> left[i] == right[i],
    ensures
        after_batch(file, commands, left) == after_batch(file, commands, right),
    decreases commands.len(),
{
    if commands.len() > 0 {
        lemma_outcomes_beyond(file, commands.drop_last(), left, right);
    }
}

/// Adding overrides to a file puts no override on two lines, and keeps
/// what the file held where it was.
pub proof fn lemma_additions_keep_file(
    file: Seq<OverridePair>,
    pairs: Seq<OverridePair>,
    succeeded: Seq<bool>,
)
    ensures
        file.len() <= after_batch(file, additions(pairs), succeeded).len(),
        after_batch(file, additions(pairs), succeeded).take(file.len() as int) == file,
        no_duplicates(file) ==> no_duplicates(after_batch(file, additions(pairs), succeeded)),
    decreases pairs.len(),
{
    let commands = additions(pairs);
    if pairs.len() == 0 {
        assert(file.take(file.len() as int) == file);
    } else {
        let head = pairs.drop_last();
        assert(commands.drop_last() == additions(head));
        lemma_additions_keep_file(file, head, succeeded);
        let before = after_batch(file, additions(head), succeeded);
        let after = after_batch(file, commands, succeeded);
        assert(after.take(file.len() as int) == before.take(file.len() as int));
        if no_duplicates(file) && after != before {
            assert(after == before.push(pairs.last()));
            assert forall|i: int, j: int| 0 <= i < j < after.len() implies after[i] != after[j] by {
                if j == before.len() {
                    assert(before[i] == after[i]);
                    assert(before.contains(before[i]));
                } else {
                    assert(before[i] == after[i]);
                    assert(before[j] == after[j]);
                }
            }
        }
    }
}

/// In a batch of additions, every override whose command went well stands
/// in the file afterwards, whichever of the other commands failed.
pub proof fn lemma_failure_spares_the_rest(
    file: Seq<OverridePair>,
    pairs: Seq<OverridePair>,
    succeeded: Seq<bool>,
    index: int,
)
    requires
        0 <= index < pairs.len(),
        succeeded[index],
    ensures
        after_batch(file, additions(pairs), succeeded).contains(pairs[index]),
    decreases pairs.len(),
{
    let commands = additions(pairs);
    let head = pairs.drop_last();
    assert(commands.drop_last() == additions(head));
    let before = after_batch(file, additions(head), succeeded);
    let after = after_batch(file, commands, succeeded);
    if index == pairs.len() - 1 {
        if before.contains(pairs[index]) {
        } else {
            assert(after == before.push(pairs[index]));
            assert(after[before.len() as int] == pairs[index]);
        }
    } else {
        lemma_failure_spares_the_rest(file, head, succeeded, index);
        assert(head[index] == pairs[index]);
        let k = choose|k: int| 0 <= k < before.len() && before[k] == pairs[index];
        assert(after[k] == before[k]);
    }
}

/// Adding overrides that the file holds already leaves it as it is.
pub proof fn lemma_additions_of_held(file: Seq<OverridePair>, pairs: Seq<OverridePair>)
    requires
        forall|i: int| 0 <= i < pairs.len() ==> file.contains(#[trigger] pairs[i]),
    ensures
        after_all(file, additions(pairs)) == file,
    decreases pairs.len(),
{
    if pairs.len() > 0 {
        let head = pairs.drop_last();
        assert(additions(pairs).drop_last() == additions(head));
        assert forall|i: int| 0 <= i < head.len() implies file.contains(#[trigger] head[i]) by {
            assert(head[i] == pairs[i]);
        }
        lemma_additions_of_held(file, head);
        lemma_outcomes_beyond(
            file,
            additions(head),
            all_succeeded(pairs.len()),
            all_succeeded(head.len()),
        );
        assert(file.contains(pairs[pairs.len() - 1]));
    }
}

/// Applying the same overrides a second time, without a flush in between,
/// changes nothing.
pub proof fn lemma_apply_twice(file: Seq<OverridePair>, pairs: Seq<OverridePair>)
    ensures
        after_all(after_all(file, additions(pairs)), additions(pairs)) == after_all(
            file,
            additions(pairs),
        ),
{
    let once = after_all(file, additions(pairs));
    assert forall|i: int| 0 <= i < pairs.len() implies once.contains(#[trigger] pairs[i]) by {
        lemma_failure_spares_the_rest(file, pairs, all_succeeded(pairs.len()), i);
    }
    lemma_additions_of_held(once, pairs);
}

/// A flush followed by the overrides of a restored file leaves what the
/// restored file alone gives: what the live file held before has no part
/// in it.
pub proof fn lemma_flush_then_apply(file: Seq<OverridePair>, incoming: Seq<OverridePair>)
    ensures
        after_all(file, reconciliation(true, file, incoming)) == after_all(
            Seq::empty(),
            additions(incoming),
        ),
        no_duplicates(after_all(file, reconciliation(true, file, incoming))),
{
    lemma_batches_in_a_row(file, removals(file), additions(incoming));
    lemma_flush_empties(file);
    lemma_additions_keep_file(
        Seq::empty(),
        incoming,
        all_succeeded(additions(incoming).len()),
    );
}

/// A flush followed by one override leaves exactly that override in the
/// file, whatever the file held before.
pub proof fn lemma_flush_then_apply_one(file: Seq<OverridePair>, pair: OverridePair)
    ensures
        after_all(file, reconciliation(true, file, seq![pair])) == seq![pair],
{
    lemma_flush_then_apply(file, seq![pair]);
    let commands = additions(seq![pair]);
    let empty = Seq::<OverridePair>::empty();
    assert(commands.drop_last() == Seq::<CommandModel>::empty());
    assert(after_batch(empty, commands.drop_last(), all_succeeded(1)) == empty);
    assert(empty.push(pair) == seq![pair]);
}

/// Whatever is reported of its commands, a batch hands out every one of
/// them, in order: a failure stops nothing.
pub proof fn lemma_every_command_is_issued(batch: BatchModel, outcomes: Seq<bool>)
    requires
        batch.issued <= batch.commands.len(),
    ensures
        issued_from(batch, outcomes) == batch.commands.skip(batch.issued as int),
    decreases batch.commands.len() - batch.issued,
{
    if batch.issued < batch.commands.len() {
        let next = batch.advanced().noted(outcomes[batch.issued as int]);
        lemma_every_command_is_issued(next, outcomes);
        assert(seq![batch.commands[batch.issued as int]] + batch.commands.skip(
            batch.issued as int + 1,
        ) == batch.commands.skip(batch.issued as int));
    } else {
        assert(batch.commands.skip(batch.issued as int) == Seq::<CommandModel>::empty());
    }
}

/// A batch that was just made hands out all its commands, whatever happens
/// to each.
pub proof fn lemma_fresh_batch_issues_all(commands: Seq<CommandModel>, outcomes: Seq<bool>)
    ensures
        issued_from(fresh_batch(commands), outcomes) == commands,
{
    lemma_every_command_is_issued(fresh_batch(commands), outcomes);
    assert(commands.skip(0) == commands);
}

} // verus!
