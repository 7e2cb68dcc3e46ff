//! The registry of trains on the track and the requests that change it.
//!
//! The registry is a queue in order of registration: its head is the train
//! that entered first, its tail the one that entered last.

use std::collections::VecDeque;
use vstd::prelude::*;
use crate::message::{lemma_field_len, parse, parse_message, split_fields, Command};
use crate::outcome::Outcome;
use crate::train::{Train, TrainModel};

verus! {

/// The last block of the track.  A train leaves the track from here and
/// from nowhere else.
pub const TRACKLENGTH: u8 = 100;

/// The place of the first train named `name` in the registry, if there is one.
pub open spec fn position(registry: Seq<TrainModel>, name: Seq<char>) -> Option<int>
    decreases registry.len(),
{
    if registry.len() == 0 {
        None
    } else if registry[0].name == name {
        Some(0)
    } else {
        match position(registry.drop_first(), name) {
            Some(i) => Some(i + 1),
            None => None,
        }
    }
}

/// `position` finds the first train of that name, and finds none only where
/// there is none.
pub proof fn lemma_position(registry: Seq<TrainModel>, name: Seq<char>)
    ensures
        match position(registry, name) {
            Some(i) => {
                &&& 0 <= i < registry.len()
                &&& registry[i].name == name
                &&& forall|j: int| 0 <= j < i ==> registry[j].name != name
            },
            None => forall|j: int| 0 <= j < registry.len() ==> registry[j].name != name,
        },
    decreases registry.len(),
{
    if registry.len() > 0 && registry[0].name != name {
        let rest = registry.drop_first();
        lemma_position(rest, name);
        assert(forall|j: int| 0 < j < registry.len() ==> registry[j] == rest[j - 1]);
    }
}

/// Looks a train up by name.  Returns the place of the first train of that
/// name, counted from the head of the registry.
pub fn find(train_list: &VecDeque<Train>, name: &String) -> (found: Option<usize>)
    ensures
        match found {
            Some(i) => {
                &&& position(train_list.deep_view(), name@) == Some(i as int)
                &&& i < train_list.len()
                &&& train_list@[i as int].name@ == name@
                &&& forall|j: int| 0 <= j < i ==> train_list@[j].name@ != name@
            },
            None => {
                &&& position(train_list.deep_view(), name@) is None
                &&& forall|j: int| 0 <= j < train_list.len() ==> train_list@[j].name@ != name@
            },
        },
{
    let ghost registry = train_list.deep_view();
    let mut i: usize = 0;
    while i < train_list.len()
        invariant
            i <= train_list.len(),
            registry == train_list.deep_view(),
            forall|j: int| 0 <= j < i ==> registry[j].name != name@,
        decreases train_list.len() - i,
    {
        if train_list[i].name == *name {
            proof {
                assert forall|j: int| 0 <= j < i implies train_list@[j].name@ != name@ by {
                    assert(registry[j] == train_list@[j]@);
                }
                assert(registry[i as int] == train_list@[i as int]@);
                lemma_position(registry, name@);
            }
            return Some(i);
        }
        i = i + 1;
    }
    proof {
        assert forall|j: int| 0 <= j < train_list.len() implies train_list@[j].name@
            != name@ by {
            assert(registry[j] == train_list@[j]@);
        }
        lemma_position(registry, name@);
    }
    None
}

/// The answer to a request to register a train named `name`.
pub open spec fn register_outcome(registry: Seq<TrainModel>, name: Seq<char>) -> Outcome {
    if position(registry, name) is Some {
        Outcome::DuplicateName
    } else if registry.len() > 0 && registry.last().location == 0 {
        Outcome::EntryBlockOccupied
    } else {
        Outcome::Ack
    }
}

/// The registry after a request to register a train named `name`, cleared up
/// to block `eoa`: the train has joined the tail if the request is granted.
pub open spec fn after_register(registry: Seq<TrainModel>, name: Seq<char>, eoa: nat) -> Seq<
    TrainModel,
> {
    if register_outcome(registry, name) == Outcome::Ack {
        registry.push(TrainModel::enter(name, eoa))
    } else {
        registry
    }
}

/// The answer to a request to unregister the train named `name`.
pub open spec fn unregister_outcome(registry: Seq<TrainModel>, name: Seq<char>) -> Outcome {
    match position(registry, name) {
        None => Outcome::UnknownTrain,
        Some(i) => if registry[i].location != TRACKLENGTH {
            Outcome::NotAtExit
        } else {
            Outcome::Ack
        },
    }
}

/// The registry after a request to unregister the train named `name`: that
/// train has left if the request is granted, and every other train has kept
/// its place in the queue.
pub open spec fn after_unregister(registry: Seq<TrainModel>, name: Seq<char>) -> Seq<TrainModel> {
    match position(registry, name) {
        Some(i) if unregister_outcome(registry, name) == Outcome::Ack => registry.remove(i),
        _ => registry,
    }
}

/// The answer to a request to move the train named `name` to `block`.
pub open spec fn forward_outcome(registry: Seq<TrainModel>, name: Seq<char>, block: nat) -> Outcome {
    match position(registry, name) {
        None => Outcome::UnknownTrain,
        Some(i) => registry[i].advance_outcome(block),
    }
}

/// The registry after a request to move the train named `name` to `block`.
pub open spec fn after_forward(registry: Seq<TrainModel>, name: Seq<char>, block: nat) -> Seq<
    TrainModel,
> {
    match position(registry, name) {
        None => registry,
        Some(i) => registry.update(i, registry[i].advance(block)),
    }
}

/// The answer to a message.
pub open spec fn message_outcome(registry: Seq<TrainModel>, message: Seq<char>) -> Outcome {
    let request = parse(message);
    match Command::of_text(request.command) {
        Command::Register => register_outcome(registry, request.name),
        Command::Unregister => unregister_outcome(registry, request.name),
        Command::Forward => forward_outcome(registry, request.name, request.block),
        Command::Unknown => Outcome::InvalidCommand,
    }
}

/// The registry after a message.
pub open spec fn after_message(registry: Seq<TrainModel>, message: Seq<char>) -> Seq<TrainModel> {
    let request = parse(message);
    match Command::of_text(request.command) {
        Command::Register => after_register(registry, request.name, request.block),
        Command::Unregister => after_unregister(registry, request.name),
        Command::Forward => after_forward(registry, request.name, request.block),
        Command::Unknown => registry,
    }
}

/// What holds of a registry that only requests have changed: every train is
/// within its authority and runs at the speed of its class, no two trains
/// share a name, and no train but the last to register sits in block 0.
pub open spec fn registry_wf(registry: Seq<TrainModel>) -> bool {
    &&& forall|i: int| 0 <= i < registry.len() ==> (#[trigger] registry[i]).wf()
    &&& forall|i: int, j: int|
        0 <= i < j < registry.len() ==> (#[trigger] registry[i]).name != (
        #[trigger] registry[j]).name
    &&& forall|i: int| 0 <= i < registry.len() - 1 ==> (#[trigger] registry[i]).location != 0
}

/// No request breaks the registry: whatever the message, a well-formed
/// registry is well-formed afterwards.
pub proof fn lemma_message_keeps_registry_wf(registry: Seq<TrainModel>, message: Seq<char>)
    requires
        registry_wf(registry),
    ensures
        registry_wf(after_message(registry, message)),
{
    let request = parse(message);
    lemma_position(registry, request.name);
    if let Some(moved) = position(registry, request.name) {
        registry[moved].lemma_advance(request.block);
    }
}

/// A refused request changes nothing.
pub proof fn lemma_refusal_changes_nothing(registry: Seq<TrainModel>, message: Seq<char>)
    requires
        message_outcome(registry, message) != Outcome::Ack,
    ensures
        after_message(registry, message) == registry,
{
    let request = parse(message);
    lemma_position(registry, request.name);
}

/// Once a name has been through registration, registering it again is
/// refused as a duplicate, whatever the authority asked for, and changes
/// nothing.  The first attempt may itself have been a duplicate; it must only
/// not have been turned away at an occupied entry block, for then the name
/// is still free.
pub proof fn lemma_register_twice(
    registry: Seq<TrainModel>,
    name: Seq<char>,
    first_eoa: nat,
    second_eoa: nat,
)
    requires
        register_outcome(registry, name) != Outcome::EntryBlockOccupied,
    ensures
        register_outcome(after_register(registry, name, first_eoa), name)
            == Outcome::DuplicateName,
        after_register(after_register(registry, name, first_eoa), name, second_eoa)
            == after_register(registry, name, first_eoa),
{
    lemma_position(after_register(registry, name, first_eoa), name);
}

/// A message of one field, or of more than three, is answered with
/// `Invalid command` and changes nothing.
pub proof fn lemma_wrong_field_count_is_invalid(registry: Seq<TrainModel>, message: Seq<char>)
    requires
        split_fields(message).len() != 2,
        split_fields(message).len() != 3,
    ensures
        message_outcome(registry, message) == Outcome::InvalidCommand,
        after_message(registry, message) == registry,
{
}

/// A message without any `:` is answered with `Invalid command` and changes
/// nothing.
pub proof fn lemma_no_separator_is_invalid(registry: Seq<TrainModel>, message: Seq<char>)
    requires
        forall|i: int| 0 <= i < message.len() ==> message[i] != ':',
    ensures
        message_outcome(registry, message) == Outcome::InvalidCommand,
        after_message(registry, message) == registry,
{
    lemma_field_len(message, message.len() as int);
    lemma_wrong_field_count_is_invalid(registry, message);
}

/// As long as a train is on the track no message moves it back, and none
/// changes its authority or its speed.
pub proof fn lemma_no_train_moves_back(
    registry: Seq<TrainModel>,
    message: Seq<char>,
    name: Seq<char>,
)
    requires
        registry_wf(registry),
        position(registry, name) is Some,
        position(after_message(registry, message), name) is Some,
    ensures
        ({
            let before = registry[position(registry, name)->0];
            let after = after_message(registry, message)[position(
                after_message(registry, message),
                name,
            )->0];
            &&& before.location <= after.location
            &&& before.eoa == after.eoa
            &&& before.speed == after.speed
        }),
{
    let next = after_message(registry, message);
    let request = parse(message);
    lemma_position(registry, name);
    lemma_position(next, name);
    lemma_position(registry, request.name);
    if let Some(moved) = position(registry, request.name) {
        registry[moved].lemma_advance(request.block);
    }
}

/// Whether each train is ahead of every train that registered after it, and
/// none is beyond the last block.
pub open spec fn in_order(registry: Seq<TrainModel>) -> bool {
    &&& forall|i: int, j: int|
        0 <= i < j < registry.len() ==> (#[trigger] registry[i]).location > (
        #[trigger] registry[j]).location
    &&& forall|i: int| 0 <= i < registry.len() ==> (#[trigger] registry[i]).location <= TRACKLENGTH
}

/// Where the trains run in order, only the head of the queue can leave: a
/// granted unregistration names the head and pops the queue.
pub proof fn lemma_exit_is_from_the_head(registry: Seq<TrainModel>, name: Seq<char>)
    requires
        in_order(registry),
        unregister_outcome(registry, name) == Outcome::Ack,
    ensures
        position(registry, name) == Some(0int),
        after_unregister(registry, name) == registry.drop_first(),
{
    lemma_position(registry, name);
}

/// Unregistering the train at the head of the queue pops the queue.
pub proof fn lemma_unregister_head(registry: Seq<TrainModel>, name: Seq<char>)
    requires
        position(registry, name) == Some(0int),
        unregister_outcome(registry, name) == Outcome::Ack,
    ensures
        after_unregister(registry, name) == registry.drop_first(),
{
}

/// Registers a train named `name`, cleared up to block `eoa`, and returns the
/// answer.
///
/// A name that is on the track already is refused as a duplicate; any other
/// is refused while the train at the tail of the queue still sits in block 0,
/// and joins the tail otherwise.
pub fn handle_register(train_list: &mut VecDeque<Train>, name: String, eoa: u8) -> (reply: String)
    ensures
        reply@ == register_outcome(old(train_list).deep_view(), name@).text(),
        final(train_list).deep_view() == after_register(
            old(train_list).deep_view(),
            name@,
            eoa as nat,
        ),
        reply@ == "Already registered"@ <==> position(old(train_list).deep_view(), name@) is Some,
        old(train_list).len() > 0 && old(train_list)@.last().location == 0 ==> reply@ != "ACK"@,
        position(old(train_list).deep_view(), name@) is None ==> (reply@ == "ACK"@ <==> old(
            train_list,
        ).len() == 0 || old(train_list)@.last().location != 0),
        reply@ == "ACK"@ ==> final(train_list).len() == old(train_list).len() + 1,
        reply@ != "ACK"@ ==> final(train_list).deep_view() == old(train_list).deep_view(),
        registry_wf(old(train_list).deep_view()) ==> registry_wf(final(train_list).deep_view()),
{
    let ghost registry = train_list.deep_view();
    proof {
        let outcome = register_outcome(registry, name@);
        Outcome::lemma_text_identifies_outcome(outcome, Outcome::Ack);
        Outcome::lemma_text_identifies_outcome(outcome, Outcome::DuplicateName);
        lemma_position(registry, name@);
    }
    if find(train_list, &name).is_some() {
        Outcome::DuplicateName.message()
    } else if train_list.len() > 0 && train_list[train_list.len() - 1].location == 0 {
        Outcome::EntryBlockOccupied.message()
    } else {
        let train = Train::new(name, eoa);
        train_list.push_back(train);
        assert(train_list.deep_view() == registry.push(train@));
        Outcome::Ack.message()
    }
}

/// Unregisters the train named `name` and returns the answer.
///
/// A train leaves only from the last block.  It is the named train that
/// leaves, wherever it stands in the queue; where the trains run in order it
/// is the head (`lemma_exit_is_from_the_head`).
pub fn unregister(train_list: &mut VecDeque<Train>, name: String) -> (reply: String)
    ensures
        reply@ == unregister_outcome(old(train_list).deep_view(), name@).text(),
        final(train_list).deep_view() == after_unregister(old(train_list).deep_view(), name@),
        position(old(train_list).deep_view(), name@) is None ==> reply@ == "Not registered"@,
        position(old(train_list).deep_view(), name@) matches Some(i) ==> {
            &&& reply@ == "ACK"@ <==> old(train_list)@[i].location == TRACKLENGTH
            &&& old(train_list)@[i].location != TRACKLENGTH ==> reply@
                == "Train is not in the last block"@
        },
        reply@ == "ACK"@ ==> final(train_list).len() == old(train_list).len() - 1,
        reply@ != "ACK"@ ==> final(train_list).deep_view() == old(train_list).deep_view(),
        registry_wf(old(train_list).deep_view()) ==> registry_wf(final(train_list).deep_view()),
{
    let ghost registry = train_list.deep_view();
    proof {
        let outcome = unregister_outcome(registry, name@);
        Outcome::lemma_text_identifies_outcome(outcome, Outcome::Ack);
        lemma_position(registry, name@);
    }
    match find(train_list, &name) {
        Some(index) => {
            if train_list[index].location != TRACKLENGTH {
                Outcome::NotAtExit.message()
            } else {
                train_list.remove(index);
                assert(train_list.deep_view() == registry.remove(index as int));
                Outcome::Ack.message()
            }
        },
        None => Outcome::UnknownTrain.message(),
    }
}

/// Moves the train named `name` to `block` and returns the answer: that of
/// [`Train::forward`] for the first train of that name, `Not registered` if
/// there is none.  No other train changes.
pub fn handle_forward(train_list: &mut VecDeque<Train>, name: &String, block: u8) -> (reply: String)
    ensures
        reply@ == forward_outcome(old(train_list).deep_view(), name@, block as nat).text(),
        final(train_list).deep_view() == after_forward(
            old(train_list).deep_view(),
            name@,
            block as nat,
        ),
        position(old(train_list).deep_view(), name@) is None ==> reply@ == "Not registered"@,
        final(train_list).len() == old(train_list).len(),
        reply@ != "ACK"@ ==> final(train_list).deep_view() == old(train_list).deep_view(),
        registry_wf(old(train_list).deep_view()) ==> registry_wf(final(train_list).deep_view()),
{
    let ghost registry = train_list.deep_view();
    proof {
        let outcome = forward_outcome(registry, name@, block as nat);
        Outcome::lemma_text_identifies_outcome(outcome, Outcome::Ack);
        lemma_position(registry, name@);
        if let Some(i) = position(registry, name@) {
            registry[i].lemma_advance(block as nat);
        }
    }
    match find(train_list, name) {
        Some(index) => {
            // Take the train out of the queue, move it, and put it back where
            // it stood.
            let mut train = train_list.remove(index).unwrap();
            let reply = train.forward(block);
            train_list.insert(index, train);
            assert(train_list.deep_view() == registry.update(index as int, train@));
            reply
        },
        None => Outcome::UnknownTrain.message(),
    }
}

/// Handles one message: reads it, carries out the command it names and
/// returns the answer to send back.
///
/// `reg` registers the named train with the block as its end of authority,
/// `unr` unregisters it and ignores the block, `for` moves it to the block.
/// Any other command, and any message that is not of two or three fields, is
/// answered with `Invalid command`.
pub fn handle_message(message: &String, trains: &mut VecDeque<Train>) -> (reply: String)
    ensures
        reply@ == message_outcome(old(trains).deep_view(), message@).text(),
        final(trains).deep_view() == after_message(old(trains).deep_view(), message@),
        reply@ != "ACK"@ ==> final(trains).deep_view() == old(trains).deep_view(),
        registry_wf(old(trains).deep_view()) ==> registry_wf(final(trains).deep_view()),
{
    proof {
        let outcome = message_outcome(trains.deep_view(), message@);
        Outcome::lemma_text_identifies_outcome(outcome, Outcome::Ack);
    }
    let (name, command, block) = parse_message(message);
    match Command::recognize(command.as_str()) {
        Command::Register => handle_register(trains, name, block),
        Command::Unregister => unregister(trains, name),
        Command::Forward => handle_forward(trains, &name, block),
        Command::Unknown => Outcome::InvalidCommand.message(),
    }
}

} // verus!
