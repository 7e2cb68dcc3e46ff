//! A train on the track: its class, its position and how far it may go.

use vstd::prelude::*;
use crate::outcome::Outcome;

verus! {

/// Blocks a high-speed train may advance in one authorised move.
pub const TGVSPEED: u8 = 20;

/// Blocks a regional train may advance in one authorised move.
pub const TERSPEED: u8 = 10;

/// Blocks an intercity train, or a train of no known class, may advance in one
/// authorised move.
pub const INTSPEED: u8 = 5;

/// The class of a train, read off the first three characters of its name.
#[derive(Clone, Copy, Debug, PartialEq, Eq)]
pub enum TrainClass {
    /// Names that begin with `TGV`.
    Tgv,
    /// Names that begin with `TER`.
    Ter,
    /// Names that begin with `INT`, and every other name.
    Int,
}

/// Whether `name` begins with the three characters `a`, `b`, `c`.
pub open spec fn starts_with(name: Seq<char>, a: char, b: char, c: char) -> bool {
    name.len() >= 3 && name[0] == a && name[1] == b && name[2] == c
}

impl TrainClass {
    /// The class that a name selects.  Total: a name that is too short to
    /// carry a prefix, or whose prefix is unknown, falls into the slowest class.
    pub open spec fn of_name(name: Seq<char>) -> TrainClass {
        if starts_with(name, 'T', 'G', 'V') {
            TrainClass::Tgv
        } else if starts_with(name, 'T', 'E', 'R') {
            TrainClass::Ter
        } else {
            TrainClass::Int
        }
    }

    /// The speed of the class, in blocks per authorised move.
    pub open spec fn speed(self) -> nat {
        match self {
            TrainClass::Tgv => TGVSPEED as nat,
            TrainClass::Ter => TERSPEED as nat,
            TrainClass::Int => INTSPEED as nat,
        }
    }

    /// Every name has a class, and so a speed: one of 20, 10 and 5.  A name of
    /// fewer than three characters, or one that begins with none of `TGV`, `TER`
    /// and `INT`, runs at 5 blocks a move, as an `INT` train does.
    pub proof fn lemma_speed_of_name(name: Seq<char>)
        ensures
            TrainClass::of_name(name).speed() == 20 || TrainClass::of_name(name).speed() == 10
                || TrainClass::of_name(name).speed() == 5,
            starts_with(name, 'T', 'G', 'V') ==> TrainClass::of_name(name).speed() == 20,
            starts_with(name, 'T', 'E', 'R') ==> TrainClass::of_name(name).speed() == 10,
            starts_with(name, 'I', 'N', 'T') ==> TrainClass::of_name(name).speed() == 5,
            name.len() < 3 ==> TrainClass::of_name(name).speed() == 5,
            !starts_with(name, 'T', 'G', 'V') && !starts_with(name, 'T', 'E', 'R')
                ==> TrainClass::of_name(name).speed() == 5,
    {
    }

    /// Reads the class off a name.
    pub fn classify(name: &str) -> (class: TrainClass)
        ensures
            class == TrainClass::of_name(name@),
    {
        let mut chars = name.chars();
        let a = chars.next();
        let b = chars.next();
        let c = chars.next();
        match (a, b, c) {
            (Some('T'), Some('G'), Some('V')) => TrainClass::Tgv,
            (Some('T'), Some('E'), Some('R')) => TrainClass::Ter,
            _ => TrainClass::Int,
        }
    }

    /// The speed of the class as a machine integer.
    pub fn top_speed(&self) -> (speed: u8)
        ensures
            speed == self.speed(),
    {
        match self {
            TrainClass::Tgv => TGVSPEED,
            TrainClass::Ter => TERSPEED,
            TrainClass::Int => INTSPEED,
        }
    }
}

/// The mathematical content of a [`Train`].
pub ghost struct TrainModel {
    /// The train's name.
    pub name: Seq<char>,
    /// The block the train occupies.
    pub location: nat,
    /// The furthest block the train is cleared to reach.
    pub eoa: nat,
    /// The most blocks the train may advance in one authorised move.
    pub speed: nat,
}

impl TrainModel {
    /// A train as it enters the track: in block 0, with the speed of its class.
    pub open spec fn enter(name: Seq<char>, eoa: nat) -> TrainModel {
        TrainModel { name, location: 0, eoa, speed: TrainClass::of_name(name).speed() }
    }

    /// The train has not passed its end of authority and runs at the speed of
    /// its class.
    pub open spec fn wf(self) -> bool {
        &&& self.location <= self.eoa
        &&& self.speed == TrainClass::of_name(self.name).speed()
    }

    /// The answer to a request to move to `block`.  The checks are made in
    /// this order, and the first that fails decides.
    pub open spec fn advance_outcome(self, block: nat) -> Outcome {
        if block > self.eoa {
            Outcome::AuthorityExceeded
        } else if block <= self.location {
            Outcome::NoProgress
        } else if block > self.location + self.speed {
            Outcome::UnreachableBlock
        } else {
            Outcome::Ack
        }
    }

    /// The train after a request to move to `block`: moved there if the
    /// request is granted, untouched if it is not.
    pub open spec fn advance(self, block: nat) -> TrainModel {
        if self.advance_outcome(block) == Outcome::Ack {
            TrainModel { location: block, ..self }
        } else {
            self
        }
    }

    /// The train after a run of requests, made one after the other.
    pub open spec fn advance_all(self, blocks: Seq<nat>) -> TrainModel
        decreases blocks.len(),
    {
        if blocks.len() == 0 {
            self
        } else {
            self.advance_all(blocks.drop_last()).advance(blocks.last())
        }
    }

    /// A move is granted exactly when the block lies ahead of the train,
    /// within its speed and within its authority.  A granted move puts the
    /// train in that block; a refused one changes nothing.
    pub proof fn lemma_advance(self, block: nat)
        ensures
            self.advance_outcome(block) == Outcome::Ack <==> {
                &&& block <= self.eoa
                &&& self.location < block
                &&& block - self.location <= self.speed
            },
            self.advance_outcome(block) == Outcome::Ack ==> self.advance(block).location == block,
            self.advance_outcome(block) != Outcome::Ack ==> self.advance(block) == self,
            self.advance(block).name == self.name,
            self.advance(block).eoa == self.eoa,
            self.advance(block).speed == self.speed,
            self.wf() ==> self.advance(block).wf(),
    {
    }

    /// Over any run of requests the train never moves back: its location after
    /// the first `j` requests is at least its location after the first `i`,
    /// for `i <= j`.  Name, authority and speed stay as they were.
    pub proof fn lemma_location_never_decreases(self, blocks: Seq<nat>, i: int, j: int)
        requires
            0 <= i <= j <= blocks.len(),
        ensures
            self.advance_all(blocks.take(i)).location <= self.advance_all(blocks.take(j)).location,
            self.advance_all(blocks.take(j)).name == self.name,
            self.advance_all(blocks.take(j)).eoa == self.eoa,
            self.advance_all(blocks.take(j)).speed == self.speed,
            self.wf() ==> self.advance_all(blocks.take(j)).wf(),
        decreases j,
    {
        if j > 0 {
            assert(blocks.take(j).drop_last() == blocks.take(j - 1));
            if i < j {
                self.lemma_location_never_decreases(blocks, i, j - 1);
            } else {
                self.lemma_location_never_decreases(blocks, j - 1, j - 1);
            }
        }
    }
}

/// One train on the track.
pub struct Train {
    /// The block the train occupies.
    pub location: u8,
    /// The train's name; its first three characters select the class.
    pub name: String,
    /// The furthest block the train is cleared to reach.
    pub eoa: u8,
    /// The most blocks the train may advance in one authorised move.
    pub speed: u8,
}

impl View for Train {
    type V = TrainModel;

    open spec fn view(&self) -> TrainModel {
        TrainModel {
            name: self.name@,
            location: self.location as nat,
            eoa: self.eoa as nat,
            speed: self.speed as nat,
        }
    }
}

impl DeepView for Train {
    type V = TrainModel;

    open spec fn deep_view(&self) -> TrainModel {
        self@
    }
}

impl Train {
    /// Puts a train named `name` into block 0, cleared up to block `eoa`.
    pub fn new(name: String, eoa: u8) -> (train: Train)
        ensures
            train@ == TrainModel::enter(name@, eoa as nat),
            train.location == 0,
            train.eoa == eoa,
            train.name@ == name@,
            train.speed == TrainClass::of_name(name@).speed(),
            train@.wf(),
    {
        let speed = TrainClass::classify(name.as_str()).top_speed();
        Train { location: 0, name, eoa, speed }
    }

    /// Asks for the train to move to `block` and returns the answer.
    pub fn forward(&mut self, block: u8) -> (reply: String)
        ensures
            reply@ == old(self)@.advance_outcome(block as nat).text(),
            final(self)@ == old(self)@.advance(block as nat),
            reply@ == "ACK"@ <==> {
                &&& block <= old(self).eoa
                &&& old(self).location < block
                &&& block - old(self).location <= old(self).speed
            },
            reply@ == "ACK"@ ==> final(self).location == block,
            reply@ != "ACK"@ ==> final(self)@ == old(self)@,
            old(self).location <= final(self).location,
            old(self)@.wf() ==> final(self)@.wf(),
    {
        proof {
            Outcome::lemma_text_identifies_outcome(
                old(self)@.advance_outcome(block as nat),
                Outcome::Ack,
            );
        }
        if block > self.eoa {
            Outcome::AuthorityExceeded.message()
        } else if block <= self.location {
            Outcome::NoProgress.message()
        } else if block - self.location > self.speed {
            Outcome::UnreachableBlock.message()
        } else {
            self.location = block;
            Outcome::Ack.message()
        }
    }
}

} // verus!
