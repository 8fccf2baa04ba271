//! A list of changes as one atomic pipeline of backend commands.

use crate::instance::pairs_of;
use crate::operation::{changes_of, Change, Operation};
use crate::text::bytes_of;
use vstd::prelude::*;

verus! {

/// A pipeline of commands, kept by the `redis` crate. What it holds is seen
/// only through `pipeline_commands` and `pipeline_is_atomic`.
#[verifier::external_type_specification]
#[verifier::external_body]
pub struct ExPipeline(redis::Pipeline);

/// The commands that a pipeline holds, in the order in which they will be
/// sent: each command as its arguments, the command's name first, each
/// argument as its bytes.
pub uninterp spec fn pipeline_commands(pipeline: redis::Pipeline) -> Seq<Seq<Seq<u8>>>;

/// Whether a pipeline is sent as one transaction, all or nothing.
pub uninterp spec fn pipeline_is_atomic(pipeline: redis::Pipeline) -> bool;

/// The arguments that a list of fields and values makes: each field, then its
/// value.
pub open spec fn field_arguments(fields: Seq<(Seq<char>, Seq<char>)>) -> Seq<Seq<u8>> {
    Seq::new(
        2 * fields.len(),
        |i: int|
            if i % 2 == 0 {
                bytes_of(fields[i / 2].0)
            } else {
                bytes_of(fields[i / 2].1)
            },
    )
}

/// The backend command that makes a change.
pub open spec fn command_of(change: Change) -> Seq<Seq<u8>> {
    match change {
        Change::SetAdd { key, member } => seq![bytes_of("SADD"@), bytes_of(key), bytes_of(member)],
        Change::SetRemove { key, member } => seq![
            bytes_of("SREM"@),
            bytes_of(key),
            bytes_of(member),
        ],
        Change::HashSet { key, field, value } => seq![
            bytes_of("HSET"@),
            bytes_of(key),
            bytes_of(field),
            bytes_of(value),
        ],
        Change::HashSetMany { key, fields } => seq![bytes_of("HMSET"@), bytes_of(key)]
            + field_arguments(fields),
        Change::Delete { key } => seq![bytes_of("DEL"@), bytes_of(key)],
    }
}

/// The backend commands that make a list of changes, in order.
pub open spec fn commands_of(changes: Seq<Change>) -> Seq<Seq<Seq<u8>>> {
    changes.map_values(|c: Change| command_of(c))
}

/// `redis::pipe`: a new pipeline holds no command and is not atomic.
#[verifier::external_body]
fn new_pipeline() -> (pipeline: redis::Pipeline)
    ensures
        pipeline_commands(pipeline) == Seq::<Seq<Seq<u8>>>::empty(),
        !pipeline_is_atomic(pipeline),
{
    redis::pipe()
}

/// `redis::Pipeline::atomic`: the pipeline becomes atomic and keeps its
/// commands.
#[verifier::external_body]
fn make_atomic(pipeline: &mut redis::Pipeline)
    ensures
        pipeline_is_atomic(*final(pipeline)),
        pipeline_commands(*final(pipeline)) == pipeline_commands(*old(pipeline)),
{
    pipeline.atomic();
}

/// `redis::Pipeline::sadd` with a key and one member, both strings: the
/// command `SADD key member` goes to the end of the pipeline.
#[verifier::external_body]
fn push_set_add(pipeline: &mut redis::Pipeline, key: &str, member: &str)
    ensures
        pipeline_is_atomic(*final(pipeline)) == pipeline_is_atomic(*old(pipeline)),
        pipeline_commands(*final(pipeline)) == pipeline_commands(*old(pipeline)).push(
            seq![bytes_of("SADD"@), bytes_of(key@), bytes_of(member@)],
        ),
{
    pipeline.sadd(key, member);
}

/// `redis::Pipeline::srem` with a key and one member, both strings: the
/// command `SREM key member` goes to the end of the pipeline.
#[verifier::external_body]
fn push_set_remove(pipeline: &mut redis::Pipeline, key: &str, member: &str)
    ensures
        pipeline_is_atomic(*final(pipeline)) == pipeline_is_atomic(*old(pipeline)),
        pipeline_commands(*final(pipeline)) == pipeline_commands(*old(pipeline)).push(
            seq![bytes_of("SREM"@), bytes_of(key@), bytes_of(member@)],
        ),
{
    pipeline.srem(key, member);
}

/// `redis::Pipeline::hset` with strings: the command `HSET key field value`
/// goes to the end of the pipeline.
#[verifier::external_body]
fn push_hash_set(pipeline: &mut redis::Pipeline, key: &str, field: &str, value: &str)
    ensures
        pipeline_is_atomic(*final(pipeline)) == pipeline_is_atomic(*old(pipeline)),
        pipeline_commands(*final(pipeline)) == pipeline_commands(*old(pipeline)).push(
            seq![bytes_of("HSET"@), bytes_of(key@), bytes_of(field@), bytes_of(value@)],
        ),
{
    pipeline.hset(key, field, value);
}

/// `redis::Pipeline::hset_multiple` with a string key and pairs of strings:
/// the command `HMSET key field value ...`, with every pair in order, goes to
/// the end of the pipeline.
#[verifier::external_body]
fn push_hash_set_many(pipeline: &mut redis::Pipeline, key: &str, fields: &Vec<(String, String)>)
    ensures
        pipeline_is_atomic(*final(pipeline)) == pipeline_is_atomic(*old(pipeline)),
        pipeline_commands(*final(pipeline)) == pipeline_commands(*old(pipeline)).push(
            seq![bytes_of("HMSET"@), bytes_of(key@)] + field_arguments(pairs_of(fields@)),
        ),
{
    pipeline.hset_multiple(key, fields.as_slice());
}

/// `redis::Pipeline::del` with one string key: the command `DEL key` goes to
/// the end of the pipeline.
#[verifier::external_body]
fn push_delete(pipeline: &mut redis::Pipeline, key: &str)
    ensures
        pipeline_is_atomic(*final(pipeline)) == pipeline_is_atomic(*old(pipeline)),
        pipeline_commands(*final(pipeline)) == pipeline_commands(*old(pipeline)).push(
            seq![bytes_of("DEL"@), bytes_of(key@)],
        ),
{
    pipeline.del(key);
}

fn push_operation(pipeline: &mut redis::Pipeline, operation: &Operation)
    ensures
        pipeline_is_atomic(*final(pipeline)) == pipeline_is_atomic(*old(pipeline)),
        pipeline_commands(*final(pipeline)) == pipeline_commands(*old(pipeline)).push(
            command_of(operation@),
        ),
{
    match operation {
        Operation::SetAdd { key, member } => push_set_add(pipeline, key.as_str(), member.as_str()),
        Operation::SetRemove { key, member } => push_set_remove(
            pipeline,
            key.as_str(),
            member.as_str(),
        ),
        Operation::HashSet { key, field, value } => push_hash_set(
            pipeline,
            key.as_str(),
            field.as_str(),
            value.as_str(),
        ),
        Operation::HashSetMany { key, fields } => push_hash_set_many(pipeline, key.as_str(), fields),
        Operation::Delete { key } => push_delete(pipeline, key.as_str()),
    }
}

/// The atomic pipeline that makes a list of changes: one command for each
/// change, in order, and nothing else.
pub fn transaction(operations: &Vec<Operation>) -> (pipeline: redis::Pipeline)
    ensures
        pipeline_is_atomic(pipeline),
        pipeline_commands(pipeline) == commands_of(changes_of(operations@)),
{
    let mut pipeline = new_pipeline();
    make_atomic(&mut pipeline);
    let mut i: usize = 0;
    while i < operations.len()
        invariant
            i <= operations.len(),
            pipeline_is_atomic(pipeline),
            pipeline_commands(pipeline) == commands_of(changes_of(operations@).take(i as int)),
        decreases operations.len() - i,
    {
        push_operation(&mut pipeline, &operations[i]);
        assert(commands_of(changes_of(operations@).take(i + 1)) =~= commands_of(
            changes_of(operations@).take(i as int),
        ).push(command_of(operations@[i as int]@)));
        i += 1;
    }
    assert(changes_of(operations@).take(i as int) =~= changes_of(operations@));
    pipeline
}

} // verus!
