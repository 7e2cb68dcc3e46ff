//! The wire grammar of a request: `<name>:<command>` or
//! `<name>:<command>:<number>`, fields separated by `:`.

use vstd::prelude::*;

verus! {

/// The number of characters before the first `:` of `s`, or all of them if
/// `s` holds none.
pub open spec fn field_len(s: Seq<char>) -> nat
    decreases s.len(),
{
    if s.len() == 0 || s[0] == ':' {
        0
    } else {
        1 + field_len(s.drop_first())
    }
}

/// The fields of `s`: the runs of characters between its separators, in
/// order.  A text without a separator is one field; an empty text is one
/// empty field.
pub open spec fn split_fields(s: Seq<char>) -> Seq<Seq<char>>
    decreases s.len(),
{
    let n = field_len(s) as int;
    if n < s.len() {
        seq![s.take(n)] + split_fields(s.skip(n + 1))
    } else {
        seq![s]
    }
}

/// `field_len` is the position of the first separator.
pub proof fn lemma_field_len(s: Seq<char>, end: int)
    requires
        0 <= end <= s.len(),
        forall|j: int| 0 <= j < end ==> s[j] != ':',
        end < s.len() ==> s[end] == ':',
    ensures
        field_len(s) == end,
    decreases end,
{
    if end > 0 {
        lemma_field_len(s.drop_first(), end - 1);
    }
}

/// The first field ends at the first separator, or at the end of the text.
pub proof fn lemma_field_len_ends_field(s: Seq<char>)
    ensures
        field_len(s) <= s.len(),
        forall|j: int| 0 <= j < field_len(s) ==> s[j] != ':',
        field_len(s) < s.len() ==> s[field_len(s) as int] == ':',
    decreases s.len(),
{
    if s.len() > 0 && s[0] != ':' {
        let rest = s.drop_first();
        lemma_field_len_ends_field(rest);
        assert(forall|j: int| 0 < j < s.len() ==> s[j] == rest[j - 1]);
    }
}

/// The text that a run of fields makes: the fields in order, with one `:`
/// between each two.
pub open spec fn join_fields(fields: Seq<Seq<char>>) -> Seq<char>
    decreases fields.len(),
{
    if fields.len() == 0 {
        Seq::empty()
    } else if fields.len() == 1 {
        fields[0]
    } else {
        fields[0] + seq![':'] + join_fields(fields.drop_first())
    }
}

/// Whether none of the fields holds a separator.
pub open spec fn separator_free(fields: Seq<Seq<char>>) -> bool {
    forall|i: int, j: int|
        0 <= i < fields.len() && 0 <= j < fields[i].len() ==> #[trigger] fields[i][j] != ':'
}

/// Splitting loses nothing: there is at least one field, no field holds a
/// separator, and the fields joined again are the text.
pub proof fn lemma_split_then_join(s: Seq<char>)
    ensures
        split_fields(s).len() >= 1,
        separator_free(split_fields(s)),
        join_fields(split_fields(s)) == s,
    decreases s.len(),
{
    lemma_field_len_ends_field(s);
    let n = field_len(s) as int;
    if n < s.len() {
        let rest = split_fields(s.skip(n + 1));
        lemma_split_then_join(s.skip(n + 1));
        let fields = seq![s.take(n)] + rest;
        assert(fields.drop_first() == rest);
    }
}

/// Splitting is the only way to cut a text into fields: fields that hold no
/// separator are what splitting their joined text gives back.
pub proof fn lemma_join_then_split(fields: Seq<Seq<char>>)
    requires
        fields.len() >= 1,
        separator_free(fields),
    ensures
        split_fields(join_fields(fields)) == fields,
    decreases fields.len(),
{
    let s = join_fields(fields);
    let first = fields[0];
    if fields.len() == 1 {
        lemma_field_len(s, s.len() as int);
    } else {
        let rest = fields.drop_first();
        assert(separator_free(rest));
        lemma_join_then_split(rest);
        let n = first.len() as int;
        lemma_field_len(s, n);
        assert(s.take(n) == first);
        assert(s.skip(n + 1) == join_fields(rest));
    }
}

/// Splits `text` at every `:`.
pub fn split(text: &str) -> (fields: Vec<String>)
    ensures
        fields.deep_view() == split_fields(text@),
{
    let len = text.unicode_len();
    let mut fields: Vec<String> = Vec::new();
    let mut start: usize = 0;
    let mut i: usize = 0;
    proof {
        assert(text@.skip(0) == text@);
    }
    for c in it: text.chars()
        invariant
            it.seq() == text@,
            len == text@.len(),
            i == it.index(),
            start <= i,
            forall|j: int| start <= j < i ==> text@[j] != ':',
            split_fields(text@) == fields.deep_view() + split_fields(text@.skip(start as int)),
    {
        if c == ':' {
            let field = text.substring_char(start, i).to_owned();
            proof {
                let rest = text@.skip(start as int);
                lemma_field_len(rest, i - start);
                assert(rest.take(i - start) == text@.subrange(start as int, i as int));
                assert(rest.skip(i - start + 1) == text@.skip(i + 1));
                assert(fields.deep_view().push(field@) + split_fields(text@.skip(i + 1))
                    == fields.deep_view() + split_fields(rest));
            }
            fields.push(field);
            start = i + 1;
        }
        i = i + 1;
    }
    let field = text.substring_char(start, len).to_owned();
    proof {
        let rest = text@.skip(start as int);
        lemma_field_len(rest, len - start);
    }
    fields.push(field);
    fields
}

/// Whether `c` is one of the ten decimal digits.
pub open spec fn is_digit(c: char) -> bool {
    '0' <= c && c <= '9'
}

/// The value of a decimal digit; 0 for any other character.
pub open spec fn digit_value(c: char) -> nat {
    if is_digit(c) {
        (c as int - '0' as int) as nat
    } else {
        0
    }
}

/// Whether `s` holds decimal digits only.
pub open spec fn all_digits(s: Seq<char>) -> bool {
    forall|i: int| 0 <= i < s.len() ==> is_digit(#[trigger] s[i])
}

/// The number that a run of decimal digits denotes.
pub open spec fn decimal_value(digits: Seq<char>) -> nat
    decreases digits.len(),
{
    if digits.len() == 0 {
        0
    } else {
        10 * decimal_value(digits.drop_last()) + digit_value(digits.last())
    }
}

/// The digits of a numeric field: the field without its optional leading `+`.
pub open spec fn digits_of(field: Seq<char>) -> Seq<char> {
    if field.len() > 0 && field[0] == '+' {
        field.skip(1)
    } else {
        field
    }
}

/// Whether `field` denotes a block: an optional `+`, then one or more decimal
/// digits, with a value of at most 255.
pub open spec fn is_block_number(field: Seq<char>) -> bool {
    let digits = digits_of(field);
    digits.len() > 0 && all_digits(digits) && decimal_value(digits) <= u8::MAX
}

/// The block a numeric field asks for; 0 where the field denotes none.
pub open spec fn block_number(field: Seq<char>) -> nat {
    if is_block_number(field) {
        decimal_value(digits_of(field))
    } else {
        0
    }
}

/// Reading further digits never makes the number smaller.
pub proof fn lemma_decimal_value_grows(digits: Seq<char>, k: int)
    requires
        0 <= k <= digits.len(),
    ensures
        decimal_value(digits.take(k)) <= decimal_value(digits),
    decreases digits.len() - k,
{
    if k < digits.len() {
        lemma_decimal_value_grows(digits, k + 1);
        assert(digits.take(k + 1).drop_last() == digits.take(k));
    } else {
        assert(digits.take(k) == digits);
    }
}

/// Reads the numeric field of a request.  A field that is not a block number
/// reads as 0.
pub fn parse_block(field: &str) -> (block: u8)
    ensures
        block == block_number(field@),
{
    let mut value: u16 = 0;
    let mut at_start = true;
    let mut any_digit = false;
    let ghost mut skipped: int = 0;
    for c in it: field.chars()
        invariant
            it.seq() == field@,
            at_start == (it.index() == 0),
            skipped == (if it.index() > 0 && field@[0] == '+' { 1int } else { 0int }),
            skipped <= it.index(),
            any_digit == (skipped < it.index()),
            all_digits(field@.subrange(skipped, it.index())),
            value == decimal_value(field@.subrange(skipped, it.index())),
            value <= u8::MAX,
    {
        let ghost i = it.index();
        if at_start && c == '+' {
            proof {
                skipped = 1;
            }
        } else if '0' <= c && c <= '9' {
            let digit = (c as u32 - '0' as u32) as u16;
            value = 10 * value + digit;
            any_digit = true;
            proof {
                let read = field@.subrange(skipped, i + 1);
                assert(read.drop_last() == field@.subrange(skipped, i));
            }
            if value > 255 {
                proof {
                    let digits = digits_of(field@);
                    assert(digits.take(i + 1 - skipped) == field@.subrange(skipped, i + 1));
                    lemma_decimal_value_grows(digits, i + 1 - skipped);
                }
                return 0;
            }
        } else {
            assert(!is_digit(digits_of(field@)[i - skipped]));
            return 0;
        }
        at_start = false;
    }
    if !any_digit {
        return 0;
    }
    assert(digits_of(field@) == field@.subrange(skipped, field@.len() as int));
    value as u8
}

/// A request as read off the wire.
pub ghost struct Request {
    /// The train the request is about.
    pub name: Seq<char>,
    /// What is asked of it.
    pub command: Seq<char>,
    /// The block that goes with the command; 0 where the request gives none.
    pub block: nat,
}

/// The request that a message carries.  A message of two fields carries
/// block 0; a message of any other number of fields than two or three carries
/// an empty name and an empty command.
pub open spec fn parse(message: Seq<char>) -> Request {
    let fields = split_fields(message);
    if fields.len() == 2 {
        Request { name: fields[0], command: fields[1], block: 0 }
    } else if fields.len() == 3 {
        Request { name: fields[0], command: fields[1], block: block_number(fields[2]) }
    } else {
        Request { name: Seq::empty(), command: Seq::empty(), block: 0 }
    }
}

/// A name and a command with one `:` between them read as that name and that
/// command, with block 0.
pub proof fn lemma_parse_two_fields(name: Seq<char>, command: Seq<char>)
    requires
        !name.contains(':'),
        !command.contains(':'),
    ensures
        parse(name + seq![':'] + command) == (Request { name, command, block: 0 }),
{
    let fields = seq![name, command];
    assert(fields.drop_first() == seq![command]);
    assert(join_fields(seq![command]) == command);
    lemma_join_then_split(fields);
}

/// A name, a command and a number with one `:` between each two read as that
/// name, that command and the block that the number denotes.
pub proof fn lemma_parse_three_fields(name: Seq<char>, command: Seq<char>, number: Seq<char>)
    requires
        !name.contains(':'),
        !command.contains(':'),
        !number.contains(':'),
    ensures
        parse(name + seq![':'] + command + seq![':'] + number) == (Request {
            name,
            command,
            block: block_number(number),
        }),
{
    let fields = seq![name, command, number];
    assert(fields.drop_first() == seq![command, number]);
    assert(seq![command, number].drop_first() == seq![number]);
    assert(join_fields(seq![number]) == number);
    assert(join_fields(seq![command, number]) == command + seq![':'] + number);
    assert(join_fields(fields) == name + seq![':'] + command + seq![':'] + number);
    lemma_join_then_split(fields);
}

/// Reads a message into name, command and block.
pub fn parse_message(message: &String) -> (parsed: (String, String, u8))
    ensures
        parsed.0@ == parse(message@).name,
        parsed.1@ == parse(message@).command,
        parsed.2 == parse(message@).block,
{
    let fields = split(message.as_str());
    if fields.len() == 2 {
        (fields[0].clone(), fields[1].clone(), 0)
    } else if fields.len() == 3 {
        (fields[0].clone(), fields[1].clone(), parse_block(fields[2].as_str()))
    } else {
        (String::new(), String::new(), 0)
    }
}

/// The commands of the protocol.
#[derive(Clone, Copy, Debug, PartialEq, Eq)]
pub enum Command {
    /// `reg`: put a train on the track.
    Register,
    /// `unr`: take a train off the track.
    Unregister,
    /// `for`: move a train forward.
    Forward,
    /// Anything else.
    Unknown,
}

impl Command {
    /// The command that a command field names.
    pub open spec fn of_text(text: Seq<char>) -> Command {
        if text == seq!['r', 'e', 'g'] {
            Command::Register
        } else if text == seq!['u', 'n', 'r'] {
            Command::Unregister
        } else if text == seq!['f', 'o', 'r'] {
            Command::Forward
        } else {
            Command::Unknown
        }
    }

    /// Recognises a command field.
    pub fn recognize(text: &str) -> (command: Command)
        ensures
            command == Command::of_text(text@),
    {
        let mut chars = text.chars();
        let a = chars.next();
        let b = chars.next();
        let c = chars.next();
        let d = chars.next();
        match (a, b, c, d) {
            (Some('r'), Some('e'), Some('g'), None) => {
                assert(text@ == seq!['r', 'e', 'g']);
                Command::Register
            },
            (Some('u'), Some('n'), Some('r'), None) => {
                assert(text@ == seq!['u', 'n', 'r']);
                Command::Unregister
            },
            (Some('f'), Some('o'), Some('r'), None) => {
                assert(text@ == seq!['f', 'o', 'r']);
                Command::Forward
            },
            _ => Command::Unknown,
        }
    }
}

} // verus!
