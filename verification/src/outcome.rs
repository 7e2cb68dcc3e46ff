//! The answers the authority gives to a request.

use vstd::prelude::*;

verus! {

/// What became of a request.
#[derive(Clone, Copy, Debug, PartialEq, Eq)]
pub enum Outcome {
    /// The request was granted.
    Ack,
    /// Registration of a name that is already on the track.
    DuplicateName,
    /// Registration while the most recently registered train still sits in block 0.
    EntryBlockOccupied,
    /// The request names a train that is not on the track.
    UnknownTrain,
    /// Unregistration of a train that has not reached the last block.
    NotAtExit,
    /// The requested block lies beyond the train's end of authority.
    AuthorityExceeded,
    /// The requested block is not ahead of the train.
    NoProgress,
    /// The requested block is further ahead than the train's speed allows.
    UnreachableBlock,
    /// The request carries no known command.
    InvalidCommand,
}

impl Outcome {
    /// The exact text sent back for this outcome.
    pub open spec fn text(self) -> Seq<char> {
        match self {
            Outcome::Ack => "ACK"@,
            Outcome::DuplicateName => "Already registered"@,
            Outcome::EntryBlockOccupied => "First block occupied"@,
            Outcome::UnknownTrain => "Not registered"@,
            Outcome::NotAtExit => "Train is not in the last block"@,
            Outcome::AuthorityExceeded => "Block is greater than EOA"@,
            Outcome::NoProgress => "Block is less than or equal to current location"@,
            Outcome::UnreachableBlock => "Block is unreachable"@,
            Outcome::InvalidCommand => "Invalid command"@,
        }
    }

    /// Renders the outcome as the text that goes on the wire.
    pub fn message(&self) -> (reply: String)
        ensures
            reply@ == self.text(),
    {
        match self {
            Outcome::Ack => "ACK".to_owned(),
            Outcome::DuplicateName => "Already registered".to_owned(),
            Outcome::EntryBlockOccupied => "First block occupied".to_owned(),
            Outcome::UnknownTrain => "Not registered".to_owned(),
            Outcome::NotAtExit => "Train is not in the last block".to_owned(),
            Outcome::AuthorityExceeded => "Block is greater than EOA".to_owned(),
            Outcome::NoProgress => "Block is less than or equal to current location".to_owned(),
            Outcome::UnreachableBlock => "Block is unreachable".to_owned(),
            Outcome::InvalidCommand => "Invalid command".to_owned(),
        }
    }

    /// Distinct outcomes have distinct texts: a reply identifies its outcome.
    pub proof fn lemma_text_identifies_outcome(a: Outcome, b: Outcome)
        ensures
            a.text() == b.text() <==> a == b,
    {
        reveal_strlit("ACK");
        reveal_strlit("Already registered");
        reveal_strlit("First block occupied");
        reveal_strlit("Not registered");
        reveal_strlit("Train is not in the last block");
        reveal_strlit("Block is greater than EOA");
        reveal_strlit("Block is less than or equal to current location");
        reveal_strlit("Block is unreachable");
        reveal_strlit("Invalid command");
        // Two of the texts have the same length; their first letters tell them apart.
        assert(a.text().len() == 20 ==> a.text()[0] == 'F' || a.text()[0] == 'B');
    }
}

} // verus!
