//! The master node's console: a line of input cut into words, the numbers
//! in it read, and the command it asks for.
use vstd::prelude::*;
use crate::geometry::{BoundingBox, Coordinate};
use crate::text::{chars_of, str_to_lowercase, to_lowercase, views_of};

verus! {

/// Whether a character is white space, as `char::is_whitespace` says: the
/// characters with Unicode's `White_Space` property.
pub open spec fn is_space(c: char) -> bool {
    ||| '\u{9}' <= c <= '\u{d}'
    ||| c == ' '
    ||| c == '\u{85}'
    ||| c == '\u{a0}'
    ||| c == '\u{1680}'
    ||| '\u{2000}' <= c <= '\u{200a}'
    ||| c == '\u{2028}'
    ||| c == '\u{2029}'
    ||| c == '\u{202f}'
    ||| c == '\u{205f}'
    ||| c == '\u{3000}'
}

fn space(c: char) -> (r: bool)
    ensures
        r == is_space(c),
{
    ('\u{9}' <= c && c <= '\u{d}') || c == ' ' || c == '\u{85}' || c == '\u{a0}' || c == '\u{1680}' || (
    '\u{2000}' <= c && c <= '\u{200a}') || c == '\u{2028}' || c == '\u{2029}' || c == '\u{202f}' || c
        == '\u{205f}' || c == '\u{3000}'
}

/// The words of a text: its longest runs of characters that are not white
/// space, in order (what `split_whitespace` gives).
pub open spec fn words(s: Seq<char>) -> Seq<Seq<char>>
    decreases s.len(),
{
    if s.len() == 0 {
        Seq::empty()
    } else {
        let before = words(s.drop_last());
        let c = s.last();
        if is_space(c) {
            before
        } else if s.len() >= 2 && !is_space(s[s.len() - 2]) {
            before.update(before.len() - 1, before.last().push(c))
        } else {
            before.push(seq![c])
        }
    }
}

/// Cuts a line into its words.
pub fn split_words<'a>(line: &'a str) -> (r: Vec<&'a str>)
    ensures
        views_of(r@) == words(line@),
{
    let v = chars_of(line);
    let n = v.len();
    let mut r: Vec<&'a str> = Vec::new();
    let mut in_word = false;
    let mut start: usize = 0;
    let mut i: usize = 0;
    proof {
        assert(line@.take(0) =~= Seq::<char>::empty());
        assert(views_of(r@) =~= Seq::<Seq<char>>::empty());
    }
    while i < n
        invariant
            v@ == line@,
            n == v.len(),
            i <= n,
            start <= i,
            in_word <==> (i > 0 && !is_space(line@[i - 1])),
            in_word ==> start < i && (start == 0 || is_space(line@[start - 1])),
            in_word ==> forall|j: int| start <= j < i ==> !is_space(#[trigger] line@[j]),
            in_word ==> views_of(r@).push(line@.subrange(start as int, i as int)) == words(line@.take(i as int)),
            !in_word ==> views_of(r@) == words(line@.take(i as int)),
        decreases n - i,
    {
        let c = v[i];
        let ghost t = line@.take(i as int);
        let ghost t1 = line@.take(i + 1);
        proof {
            assert(t1.drop_last() =~= t);
            assert(t1.last() == c);
        }
        if space(c) {
            if in_word {
                let ghost before = views_of(r@);
                r.push(line.substring_char(start, i));
                proof {
                    assert(views_of(r@) =~= before.push(line@.subrange(start as int, i as int)));
                }
            }
            in_word = false;
        } else {
            if in_word {
                proof {
                    assert(t1.len() >= 2 && t1[t1.len() - 2] == line@[i - 1]);
                    let w = words(t);
                    let vr = views_of(r@);
                    assert(w == vr.push(line@.subrange(start as int, i as int)));
                    assert(line@.subrange(start as int, i + 1) =~= line@.subrange(start as int, i as int).push(c));
                    assert(vr.push(line@.subrange(start as int, i + 1)) =~= w.update(
                        w.len() - 1,
                        w.last().push(c),
                    ));
                }
            } else {
                start = i;
                proof {
                    assert(line@.subrange(start as int, i + 1) =~= seq![c]);
                    assert(views_of(r@).push(seq![c]) =~= words(t).push(seq![c]));
                }
                in_word = true;
            }
        }
        i = i + 1;
    }
    if in_word {
        let ghost before = views_of(r@);
        r.push(line.substring_char(start, n));
        proof {
            assert(views_of(r@) =~= before.push(line@.subrange(start as int, n as int)));
        }
    }
    proof {
        assert(line@.take(n as int) =~= line@);
    }
    r
}

/// Whether a character is an ASCII decimal digit.
pub open spec fn is_digit(c: char) -> bool {
    '0' <= c <= '9'
}

pub open spec fn all_digits(d: Seq<char>) -> bool {
    forall|i: int| 0 <= i < d.len() ==> is_digit(#[trigger] d[i])
}

/// The number that a run of decimal digits writes.
pub open spec fn digits_value(d: Seq<char>) -> int
    decreases d.len(),
{
    if d.len() == 0 {
        0
    } else {
        10 * digits_value(d.drop_last()) + ((d.last() as int) - ('0' as int))
    }
}

proof fn lemma_digits_value_grows(d: Seq<char>, k: int)
    requires
        all_digits(d),
        0 <= k <= d.len(),
    ensures
        0 <= digits_value(d.take(k)) <= digits_value(d),
    decreases d.len(),
{
    if d.len() > 0 {
        if k == d.len() {
            assert(d.take(k) =~= d);
            lemma_digits_value_grows(d.drop_last(), k - 1);
            assert(d.drop_last().take(k - 1) =~= d.drop_last());
        } else {
            lemma_digits_value_grows(d.drop_last(), k);
            assert(d.drop_last().take(k) =~= d.take(k));
            lemma_digits_value_grows(d.drop_last(), d.len() - 1);
            assert(d.drop_last().take(d.len() - 1) =~= d.drop_last());
        }
    } else {
        assert(d.take(k) =~= d);
    }
}

/// The digits of an unsigned number: the text after a leading `+`, if any.
pub open spec fn unsigned_digits(w: Seq<char>) -> Seq<char> {
    if w.len() > 0 && w[0] == '+' {
        w.skip(1)
    } else {
        w
    }
}

/// What `str::parse` makes of a text for an unsigned type whose largest
/// value is `max`: an optional `+`, then one or more ASCII digits that write
/// a number up to `max`.
pub open spec fn parsed_unsigned(w: Seq<char>, max: int) -> Option<int> {
    let d = unsigned_digits(w);
    if d.len() == 0 || !all_digits(d) || digits_value(d) > max {
        None
    } else {
        Some(digits_value(d))
    }
}

/// What `str::parse::<i64>` makes of a text: an optional sign, then one or
/// more ASCII digits that write a number within `i64`.
pub open spec fn parsed_i64(w: Seq<char>) -> Option<int> {
    if w.len() > 0 && w[0] == '-' {
        let d = w.skip(1);
        if d.len() == 0 || !all_digits(d) || digits_value(d) > 0x8000_0000_0000_0000 {
            None
        } else {
            Some(-digits_value(d))
        }
    } else {
        parsed_unsigned(w, i64::MAX as int)
    }
}

/// Reads the digits of `v` from `from` on as a number up to `max`.
fn digits_up_to(v: &Vec<char>, from: usize, max: u64) -> (r: Option<u64>)
    requires
        from <= v.len(),
    ensures
        ({
            let d = v@.skip(from as int);
            match r {
                Some(n) => d.len() > 0 && all_digits(d) && digits_value(d) <= max && n == digits_value(d),
                None => d.len() == 0 || !all_digits(d) || digits_value(d) > max,
            }
        }),
{
    let ghost d = v@.skip(from as int);
    if from == v.len() {
        return None;
    }
    let mut acc: u64 = 0;
    let mut i: usize = from;
    proof {
        assert(d.take(0) =~= Seq::<char>::empty());
    }
    while i < v.len()
        invariant
            from <= i <= v.len(),
            d == v@.skip(from as int),
            forall|j: int| 0 <= j < i - from ==> is_digit(#[trigger] d[j]),
            acc == digits_value(d.take(i - from)),
            acc <= max,
        decreases v.len() - i,
    {
        let c = v[i];
        proof {
            assert(d[i - from] == c);
        }
        if !('0' <= c && c <= '9') {
            return None;
        }
        let digit: u64 = (c as u32 - '0' as u32) as u64;
        proof {
            assert(d.take(i - from + 1).drop_last() =~= d.take(i - from));
            assert(d.take(i - from + 1).last() == c);
        }
        if digit > max || acc > (max - digit) / 10 {
            proof {
                assert(10 * acc + digit > max) by (nonlinear_arith)
                    requires digit > max || acc > (max - digit) / 10, acc >= 0, max >= 0;
                if all_digits(d) {
                    lemma_digits_value_grows(d, i - from + 1);
                }
            }
            return None;
        }
        proof {
            assert(10 * acc + digit <= max) by (nonlinear_arith)
                requires acc <= (max - digit) / 10, digit <= max, acc >= 0;
        }
        acc = acc * 10 + digit;
        i = i + 1;
    }
    proof {
        assert(d.take(i - from) =~= d);
    }
    Some(acc)
}

/// Reads a count, as `str::parse::<usize>` does.
pub fn parse_count(w: &str) -> (r: Option<usize>)
    ensures
        match r {
            Some(n) => parsed_unsigned(w@, usize::MAX as int) == Some(n as int),
            None => parsed_unsigned(w@, usize::MAX as int) is None,
        },
{
    let v = chars_of(w);
    let from: usize = if v.len() > 0 && v[0] == '+' { 1 } else { 0 };
    proof {
        assert(unsigned_digits(w@) =~= v@.skip(from as int));
    }
    match digits_up_to(&v, from, usize::MAX as u64) {
        Some(n) => Some(n as usize),
        None => None,
    }
}

/// Reads a coordinate, as `str::parse::<i64>` does.
pub fn parse_coordinate(w: &str) -> (r: Option<i64>)
    ensures
        match r {
            Some(n) => parsed_i64(w@) == Some(n as int),
            None => parsed_i64(w@) is None,
        },
{
    let v = chars_of(w);
    if v.len() > 0 && v[0] == '-' {
        proof {
            assert(w@.skip(1) =~= v@.skip(1));
        }
        match digits_up_to(&v, 1, 0x8000_0000_0000_0000u64) {
            Some(n) => {
                if n == 0x8000_0000_0000_0000u64 {
                    Some(i64::MIN)
                } else {
                    Some(-(n as i64))
                }
            },
            None => None,
        }
    } else {
        let from: usize = if v.len() > 0 && v[0] == '+' { 1 } else { 0 };
        proof {
            assert(unsigned_digits(w@) =~= v@.skip(from as int));
        }
        match digits_up_to(&v, from, i64::MAX as u64) {
            Some(n) => Some(n as i64),
            None => None,
        }
    }
}


/// Why a console line asks for nothing that can be done.
#[derive(Clone, Copy, Debug, PartialEq, Eq)]
pub enum CommandError {
    StartUsage,
    CountNotDivisibleByFour,
    InvalidCount,
    InvalidLeft,
    InvalidTop,
    RightNotAfterLeft,
    InvalidRight,
    BottomNotAboveTop,
    InvalidBottom,
    LookupUsage,
    InvalidX,
    InvalidY,
    UnknownCommand,
}

/// What a console line asks the master node to do.
#[derive(Clone, Copy, Debug, PartialEq, Eq)]
pub enum MasterCommand {
    /// A blank line: nothing.
    Nothing,
    Help,
    /// Start `count` zone nodes over `area`.
    Start { count: usize, area: BoundingBox },
    Kill,
    Status,
    /// Show the ports of the node that owns a point.
    Lookup(Coordinate),
    Exit,
    /// The line is refused, for this reason.
    Refused(CommandError),
}

/// The text shown for a refused line.
pub open spec fn error_text(e: CommandError) -> Seq<char> {
    match e {
        CommandError::StartUsage =>
            "Usage: start <server-count> <left-coordinate> <top-coordinate> <right-coordinate> <bottom-coordinate>"@,
        CommandError::CountNotDivisibleByFour => "server-count must be divisible by 4"@,
        CommandError::InvalidCount => "Invalid server-count"@,
        CommandError::InvalidLeft => "Invalid left coordinate"@,
        CommandError::InvalidTop => "Invalid top coordinate"@,
        CommandError::RightNotAfterLeft => "Right coordinate cannot be smaller then left coordinate"@,
        CommandError::InvalidRight => "Invalid right coordinate"@,
        CommandError::BottomNotAboveTop => "Bottom coordinate cannot be bigger then top coordinate"@,
        CommandError::InvalidBottom => "Invalid right coordinate"@,
        CommandError::LookupUsage => "Usage: lookup <x> <y>"@,
        CommandError::InvalidX => "Invalid x coordinate"@,
        CommandError::InvalidY => "Invalid y coordinate"@,
        CommandError::UnknownCommand => "Unknown command. Use 'start <N>' or 'kill'"@,
    }
}

impl CommandError {
    /// The text shown for a refused line (a bad bottom coordinate is reported
    /// as a bad right one).
    pub fn message(&self) -> (r: String)
        ensures
            r@ == error_text(*self),
    {
        match self {
            CommandError::StartUsage => String::from_str(
                "Usage: start <server-count> <left-coordinate> <top-coordinate> <right-coordinate> <bottom-coordinate>",
            ),
            CommandError::CountNotDivisibleByFour => String::from_str("server-count must be divisible by 4"),
            CommandError::InvalidCount => String::from_str("Invalid server-count"),
            CommandError::InvalidLeft => String::from_str("Invalid left coordinate"),
            CommandError::InvalidTop => String::from_str("Invalid top coordinate"),
            CommandError::RightNotAfterLeft => String::from_str(
                "Right coordinate cannot be smaller then left coordinate",
            ),
            CommandError::InvalidRight => String::from_str("Invalid right coordinate"),
            CommandError::BottomNotAboveTop => String::from_str(
                "Bottom coordinate cannot be bigger then top coordinate",
            ),
            CommandError::InvalidBottom => String::from_str("Invalid right coordinate"),
            CommandError::LookupUsage => String::from_str("Usage: lookup <x> <y>"),
            CommandError::InvalidX => String::from_str("Invalid x coordinate"),
            CommandError::InvalidY => String::from_str("Invalid y coordinate"),
            CommandError::UnknownCommand => String::from_str("Unknown command. Use 'start <N>' or 'kill'"),
        }
    }
}

/// What the words of a `start` line ask for: a count divisible by four,
/// then the left, top, right and bottom edges, the right edge past the left
/// and the bottom edge above the top (smaller).  The area's first corner is
/// (left, top), its second (right, bottom).
pub open spec fn start_command(ws: Seq<Seq<char>>) -> MasterCommand {
    if ws.len() < 6 {
        MasterCommand::Refused(CommandError::StartUsage)
    } else {
        match parsed_unsigned(ws[1], usize::MAX as int) {
            None => MasterCommand::Refused(CommandError::InvalidCount),
            Some(count) => if count % 4 != 0 {
                MasterCommand::Refused(CommandError::CountNotDivisibleByFour)
            } else {
                match parsed_i64(ws[2]) {
                    None => MasterCommand::Refused(CommandError::InvalidLeft),
                    Some(left) => match parsed_i64(ws[3]) {
                        None => MasterCommand::Refused(CommandError::InvalidTop),
                        Some(top) => match parsed_i64(ws[4]) {
                            None => MasterCommand::Refused(CommandError::InvalidRight),
                            Some(right) => if right <= left {
                                MasterCommand::Refused(CommandError::RightNotAfterLeft)
                            } else {
                                match parsed_i64(ws[5]) {
                                    None => MasterCommand::Refused(CommandError::InvalidBottom),
                                    Some(bottom) => if bottom >= top {
                                        MasterCommand::Refused(CommandError::BottomNotAboveTop)
                                    } else {
                                        MasterCommand::Start {
                                            count: count as usize,
                                            area: BoundingBox {
                                                min: Coordinate { x: left as i64, y: top as i64 },
                                                max: Coordinate { x: right as i64, y: bottom as i64 },
                                            },
                                        }
                                    },
                                }
                            },
                        },
                    },
                }
            },
        }
    }
}

/// What the words of a `lookup` line ask for: the point (x, y).
pub open spec fn lookup_command(ws: Seq<Seq<char>>) -> MasterCommand {
    if ws.len() < 3 {
        MasterCommand::Refused(CommandError::LookupUsage)
    } else {
        match parsed_i64(ws[1]) {
            None => MasterCommand::Refused(CommandError::InvalidX),
            Some(x) => match parsed_i64(ws[2]) {
                None => MasterCommand::Refused(CommandError::InvalidY),
                Some(y) => MasterCommand::Lookup(Coordinate { x: x as i64, y: y as i64 }),
            },
        }
    }
}

/// What a console line asks for: its first word, lower-cased, names the
/// command; the words after it are the command's arguments.
pub open spec fn master_command(line: Seq<char>) -> MasterCommand {
    let ws = words(line);
    if ws.len() == 0 {
        MasterCommand::Nothing
    } else {
        let c = str_to_lowercase(ws[0]);
        if c == "help"@ {
            MasterCommand::Help
        } else if c == "start"@ {
            start_command(ws)
        } else if c == "kill"@ {
            MasterCommand::Kill
        } else if c == "status"@ {
            MasterCommand::Status
        } else if c == "lookup"@ {
            lookup_command(ws)
        } else if c == "exit"@ {
            MasterCommand::Exit
        } else {
            MasterCommand::Refused(CommandError::UnknownCommand)
        }
    }
}

fn start_from_words(ws: &Vec<&str>) -> (r: MasterCommand)
    ensures
        r == start_command(views_of(ws@)),
{
    let ghost vs = views_of(ws@);
    if ws.len() < 6 {
        return MasterCommand::Refused(CommandError::StartUsage);
    }
    proof {
        assert(vs[1] == ws@[1]@);
        assert(vs[2] == ws@[2]@);
        assert(vs[3] == ws@[3]@);
        assert(vs[4] == ws@[4]@);
        assert(vs[5] == ws@[5]@);
    }
    let count = match parse_count(ws[1]) {
        None => return MasterCommand::Refused(CommandError::InvalidCount),
        Some(v) => v,
    };
    if count % 4 != 0 {
        return MasterCommand::Refused(CommandError::CountNotDivisibleByFour);
    }
    let left = match parse_coordinate(ws[2]) {
        None => return MasterCommand::Refused(CommandError::InvalidLeft),
        Some(v) => v,
    };
    let top = match parse_coordinate(ws[3]) {
        None => return MasterCommand::Refused(CommandError::InvalidTop),
        Some(v) => v,
    };
    let right = match parse_coordinate(ws[4]) {
        None => return MasterCommand::Refused(CommandError::InvalidRight),
        Some(v) => v,
    };
    if right <= left {
        return MasterCommand::Refused(CommandError::RightNotAfterLeft);
    }
    let bottom = match parse_coordinate(ws[5]) {
        None => return MasterCommand::Refused(CommandError::InvalidBottom),
        Some(v) => v,
    };
    if bottom >= top {
        return MasterCommand::Refused(CommandError::BottomNotAboveTop);
    }
    MasterCommand::Start {
        count,
        area: BoundingBox::new(Coordinate::new(left, top), Coordinate::new(right, bottom)),
    }
}

fn lookup_from_words(ws: &Vec<&str>) -> (r: MasterCommand)
    ensures
        r == lookup_command(views_of(ws@)),
{
    let ghost vs = views_of(ws@);
    if ws.len() < 3 {
        return MasterCommand::Refused(CommandError::LookupUsage);
    }
    proof {
        assert(vs[1] == ws@[1]@);
        assert(vs[2] == ws@[2]@);
    }
    let x = match parse_coordinate(ws[1]) {
        None => return MasterCommand::Refused(CommandError::InvalidX),
        Some(v) => v,
    };
    let y = match parse_coordinate(ws[2]) {
        None => return MasterCommand::Refused(CommandError::InvalidY),
        Some(v) => v,
    };
    MasterCommand::Lookup(Coordinate::new(x, y))
}

/// Reads a console line.
pub fn parse_master_command(line: &str) -> (r: MasterCommand)
    ensures
        r == master_command(line@),
{
    let ws = split_words(line);
    if ws.len() == 0 {
        return MasterCommand::Nothing;
    }
    proof {
        assert(views_of(ws@)[0] == ws@[0]@);
    }
    let c = to_lowercase(ws[0]);
    if c == String::from_str("help") {
        MasterCommand::Help
    } else if c == String::from_str("start") {
        start_from_words(&ws)
    } else if c == String::from_str("kill") {
        MasterCommand::Kill
    } else if c == String::from_str("status") {
        MasterCommand::Status
    } else if c == String::from_str("lookup") {
        lookup_from_words(&ws)
    } else if c == String::from_str("exit") {
        MasterCommand::Exit
    } else {
        MasterCommand::Refused(CommandError::UnknownCommand)
    }
}

} // verus!
