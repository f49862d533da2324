//! The swarm command language: one command per line, at most twenty per program.
use crate::text::{
    chars_of, lines_of, read_u32, same_chars, split_lines, split_words, text_of, u32_of, upper, upper_of,
    views, words_of,
};
use vstd::prelude::*;

verus! {

/// The largest number of commands a program may hold.
pub const MAX_NUM_COMMANDS: usize = 20;

/// Exponent field of an IEEE-754 single-precision bit pattern.
pub open spec fn exponent_field(bits: u32) -> u32 {
    (bits >> 23u32) & 0xffu32
}

/// Fraction field of an IEEE-754 single-precision bit pattern.
pub open spec fn fraction_field(bits: u32) -> u32 {
    bits & 0x7f_ffffu32
}

/// The pattern encodes a normal number: neither zero, subnormal, infinite nor NaN.
pub open spec fn is_normal_bits(bits: u32) -> bool {
    exponent_field(bits) != 0 && exponent_field(bits) != 0xff
}

/// The magnitude is at most 30 degrees (30 = 1.875 * 2^4: exponent field 131, fraction 0x700000).
pub open spec fn within_turn_limit(bits: u32) -> bool {
    exponent_field(bits) < 131 || (exponent_field(bits) == 131 && fraction_field(bits)
        <= 0x70_0000)
}

/// A rotation in degrees, held as the bit pattern of a single-precision float.
#[derive(Clone, Copy, Debug, PartialEq, Eq, Structural)]
pub struct Angle {
    pub bits: u32,
}

impl Angle {
    pub fn from_bits(bits: u32) -> (r: Angle)
        ensures
            r.bits == bits,
    {
        Angle { bits }
    }

    pub fn to_bits(&self) -> (r: u32)
        ensures
            r == self.bits,
    {
        self.bits
    }
}

/// A formation a swarm can move into.
#[derive(Clone, Copy, Debug, PartialEq, Eq, Structural)]
pub enum Formation {
    /// Gather together
    GATHER,
    /// Spread apart
    SPREAD,
    /// Sierpinski pattern of the given depth
    SIERPINSKI(u32),
}

/// A single command of the swarm language.
#[derive(Clone, Copy, Debug, PartialEq, Eq, Structural)]
pub enum SwarmCommand {
    /// Move the swarm forward
    MOVE,
    /// Move the swarm left
    LEFT,
    /// Move the swarm right
    RIGHT,
    /// Move the swarm up
    UP,
    /// Move the swarm down
    DOWN,
    /// Fire a bullet in the direction the swarm faces
    FIRE,
    /// Rotate by an angle of at most 30 degrees either way
    TURN(Angle),
    /// Do nothing
    NOOP,
    /// Move into a formation
    FORMATION(Formation),
}

/// Why a line or a program was rejected.
#[derive(Clone, Copy, Debug, PartialEq, Eq, Structural)]
pub enum ParseError {
    /// The line holds only whitespace; a program skips such lines.
    Blank,
    /// The first word names no command.
    Unrecognized,
    /// The command has the wrong number of arguments.
    Arity,
    /// A numeric argument does not read as a number of the expected kind.
    InvalidNumber,
    /// The rotation's magnitude exceeds 30 degrees.
    OutOfRange,
    /// The formation name is not known.
    UnknownFormation,
    /// The program holds more than twenty commands.
    TooLong,
}

impl ParseError {
    /// A sentence that tells a player what went wrong.
    pub fn description(&self) -> String {
        match self {
            ParseError::Blank => "Command is white space.".to_owned(),
            ParseError::Unrecognized => "Command not recognized.".to_owned(),
            ParseError::Arity => "Wrong number of arguments for command.".to_owned(),
            ParseError::InvalidNumber => "Invalid numeric parameter.".to_owned(),
            ParseError::OutOfRange => "Input parameter should range from -30.0 to 30.0.".to_owned(),
            ParseError::UnknownFormation => "Invalid formation name.".to_owned(),
            ParseError::TooLong => "Program is too long: use fewer commands.".to_owned(),
        }
    }
}

/// The command that a fixed-arity opcode names, given in upper case.
pub open spec fn fixed_command(key: Seq<char>) -> Option<SwarmCommand> {
    if key == seq!['M', 'O', 'V', 'E'] {
        Some(SwarmCommand::MOVE)
    } else if key == seq!['L', 'E', 'F', 'T'] {
        Some(SwarmCommand::LEFT)
    } else if key == seq!['R', 'I', 'G', 'H', 'T'] {
        Some(SwarmCommand::RIGHT)
    } else if key == seq!['U', 'P'] {
        Some(SwarmCommand::UP)
    } else if key == seq!['D', 'O', 'W', 'N'] {
        Some(SwarmCommand::DOWN)
    } else if key == seq!['F', 'I', 'R', 'E'] {
        Some(SwarmCommand::FIRE)
    } else if key == seq!['N', 'O', 'O', 'P'] {
        Some(SwarmCommand::NOOP)
    } else {
        None
    }
}

pub open spec fn turn_key() -> Seq<char> {
    seq!['T', 'U', 'R', 'N']
}

pub open spec fn formation_key() -> Seq<char> {
    seq!['F', 'O', 'R', 'M', 'A', 'T', 'I', 'O', 'N']
}

pub open spec fn sierpinski_key() -> Seq<char> {
    seq!['S', 'I', 'E', 'R', 'P', 'I', 'N', 'S', 'K', 'I']
}

/// The plain formation that a name, given in upper case, stands for.
pub open spec fn plain_formation(key: Seq<char>) -> Option<Formation> {
    if key == seq!['G', 'A', 'T', 'H', 'E', 'R'] {
        Some(Formation::GATHER)
    } else if key == seq!['S', 'P', 'R', 'E', 'A', 'D'] {
        Some(Formation::SPREAD)
    } else {
        None
    }
}

/// A rotation whose argument was read as the given bit pattern, or did not read.
pub open spec fn turn_command(angle: Option<u32>) -> Result<SwarmCommand, ParseError> {
    match angle {
        None => Err(ParseError::InvalidNumber),
        Some(b) => if !is_normal_bits(b) {
            Err(ParseError::InvalidNumber)
        } else if !within_turn_limit(b) {
            Err(ParseError::OutOfRange)
        } else {
            Ok(SwarmCommand::TURN(Angle { bits: b }))
        },
    }
}

/// A formation command of at least two words; `keys` holds them in upper case.
/// A plain formation name accepts and ignores any words after it, while the Sierpinski
/// formation takes exactly one depth: this leniency is a deliberate choice, kept so that scripts
/// written with trailing words after `GATHER` or `SPREAD` still run.
pub open spec fn formation_command(words: Seq<Seq<char>>, keys: Seq<Seq<char>>) -> Result<
    SwarmCommand,
    ParseError,
> {
    if keys[1] == sierpinski_key() {
        if words.len() == 3 {
            match u32_of(words[2]) {
                Some(d) => Ok(SwarmCommand::FORMATION(Formation::SIERPINSKI(d))),
                None => Err(ParseError::InvalidNumber),
            }
        } else {
            Err(ParseError::Arity)
        }
    } else {
        match plain_formation(keys[1]) {
            Some(f) => Ok(SwarmCommand::FORMATION(f)),
            None => Err(ParseError::UnknownFormation),
        }
    }
}

/// The meaning of a line split into `words`, with `keys` the same words in upper case and
/// `angle` what a rotation's argument read as.
pub open spec fn command_of(words: Seq<Seq<char>>, keys: Seq<Seq<char>>, angle: Option<u32>) -> Result<
    SwarmCommand,
    ParseError,
> {
    if words.len() == 0 {
        Err(ParseError::Blank)
    } else if fixed_command(keys[0]) is Some {
        if words.len() == 1 {
            Ok(fixed_command(keys[0])->Some_0)
        } else {
            Err(ParseError::Arity)
        }
    } else if keys[0] == turn_key() {
        if words.len() == 2 {
            turn_command(angle)
        } else {
            Err(ParseError::Arity)
        }
    } else if keys[0] == formation_key() {
        if words.len() >= 2 {
            formation_command(words, keys)
        } else {
            Err(ParseError::Arity)
        }
    } else {
        Err(ParseError::Unrecognized)
    }
}

/// The words of a line in upper case.
pub open spec fn keys_of(words: Seq<Seq<char>>) -> Seq<Seq<char>> {
    words.map_values(|w: Seq<char>| upper_of(w))
}

/// The line is a rotation with one argument, which must be read as a number.
pub open spec fn needs_angle(line: Seq<char>) -> bool {
    let words = words_of(line);
    words.len() == 2 && upper_of(words[0]) == turn_key()
}

/// The meaning of one line, given what its rotation argument read as.
pub open spec fn line_command(line: Seq<char>, angle: Option<u32>) -> Result<SwarmCommand, ParseError> {
    command_of(words_of(line), keys_of(words_of(line)), angle)
}

/// `read` may return `o` for a text of the characters `w`.
pub open spec fn reads_as<F: Fn(&str) -> Option<u32>>(read: &F, w: Seq<char>, o: Option<u32>) -> bool {
    exists|t: &str| t@ == w && read.ensures((t,), o)
}

/// The rotation command for an argument that read as the float bit pattern `angle`, or did not
/// read as a number (`None`).
pub fn turn_from(angle: Option<u32>) -> (r: Result<SwarmCommand, ParseError>)
    ensures
        r == turn_command(angle),
{
    match angle {
        None => Err(ParseError::InvalidNumber),
        Some(b) => {
            let e = (b >> 23u32) & 0xffu32;
            if e == 0 || e == 0xff {
                Err(ParseError::InvalidNumber)
            } else if e < 131 || (e == 131 && (b & 0x7f_ffffu32) <= 0x70_0000) {
                Ok(SwarmCommand::TURN(Angle { bits: b }))
            } else {
                Err(ParseError::OutOfRange)
            }
        },
    }
}

/// The fixed-arity command named by an upper-case opcode.
fn fixed_from(key: &Vec<char>) -> (r: Option<SwarmCommand>)
    ensures
        r == fixed_command(key@),
{
    let mv = ['M', 'O', 'V', 'E'];
    let lf = ['L', 'E', 'F', 'T'];
    let rt = ['R', 'I', 'G', 'H', 'T'];
    let up = ['U', 'P'];
    let dn = ['D', 'O', 'W', 'N'];
    let fi = ['F', 'I', 'R', 'E'];
    let no = ['N', 'O', 'O', 'P'];
    assert(mv@ == seq!['M', 'O', 'V', 'E']);
    assert(lf@ == seq!['L', 'E', 'F', 'T']);
    assert(rt@ == seq!['R', 'I', 'G', 'H', 'T']);
    assert(up@ == seq!['U', 'P']);
    assert(dn@ == seq!['D', 'O', 'W', 'N']);
    assert(fi@ == seq!['F', 'I', 'R', 'E']);
    assert(no@ == seq!['N', 'O', 'O', 'P']);
    if same_chars(key, &mv) {
        Some(SwarmCommand::MOVE)
    } else if same_chars(key, &lf) {
        Some(SwarmCommand::LEFT)
    } else if same_chars(key, &rt) {
        Some(SwarmCommand::RIGHT)
    } else if same_chars(key, &up) {
        Some(SwarmCommand::UP)
    } else if same_chars(key, &dn) {
        Some(SwarmCommand::DOWN)
    } else if same_chars(key, &fi) {
        Some(SwarmCommand::FIRE)
    } else if same_chars(key, &no) {
        Some(SwarmCommand::NOOP)
    } else {
        None
    }
}

/// The plain formation named by an upper-case word.
fn plain_formation_from(key: &Vec<char>) -> (r: Option<Formation>)
    ensures
        r == plain_formation(key@),
{
    let ga = ['G', 'A', 'T', 'H', 'E', 'R'];
    let sp = ['S', 'P', 'R', 'E', 'A', 'D'];
    assert(ga@ == seq!['G', 'A', 'T', 'H', 'E', 'R']);
    assert(sp@ == seq!['S', 'P', 'R', 'E', 'A', 'D']);
    if same_chars(key, &ga) {
        Some(Formation::GATHER)
    } else if same_chars(key, &sp) {
        Some(Formation::SPREAD)
    } else {
        None
    }
}

impl Formation {
    /// The plain formation named by `s`, in any case.
    pub fn parse(s: &str) -> (r: Result<Formation, ParseError>)
        ensures
            r == (match plain_formation(upper_of(s@)) {
                Some(f) => Ok(f),
                None => Err(ParseError::UnknownFormation),
            }),
    {
        let key = upper(s);
        match plain_formation_from(&key) {
            Some(f) => Ok(f),
            None => Err(ParseError::UnknownFormation),
        }
    }
}

impl SwarmCommand {
    /// The command that a line split into `words` stands for, with `keys` the same words in
    /// upper case and `angle` what a rotation's argument read as.
    pub fn from_words(words: &Vec<Vec<char>>, keys: &Vec<Vec<char>>, angle: Option<u32>) -> (r:
        Result<SwarmCommand, ParseError>)
        requires
            keys.len() == words.len(),
        ensures
            r == command_of(views(words@), views(keys@), angle),
    {
        if words.len() == 0 {
            return Err(ParseError::Blank);
        }
        let tn = ['T', 'U', 'R', 'N'];
        let fm = ['F', 'O', 'R', 'M', 'A', 'T', 'I', 'O', 'N'];
        let si = ['S', 'I', 'E', 'R', 'P', 'I', 'N', 'S', 'K', 'I'];
        assert(tn@ == turn_key());
        assert(fm@ == formation_key());
        assert(si@ == sierpinski_key());
        match fixed_from(&keys[0]) {
            Some(c) => {
                if words.len() == 1 {
                    Ok(c)
                } else {
                    Err(ParseError::Arity)
                }
            },
            None => {
                if same_chars(&keys[0], &tn) {
                    if words.len() == 2 {
                        turn_from(angle)
                    } else {
                        Err(ParseError::Arity)
                    }
                } else if same_chars(&keys[0], &fm) {
                    if words.len() < 2 {
                        Err(ParseError::Arity)
                    } else if same_chars(&keys[1], &si) {
                        if words.len() == 3 {
                            let depth = text_of(&words[2]);
                            match read_u32(depth.as_str()) {
                                Some(d) => Ok(SwarmCommand::FORMATION(Formation::SIERPINSKI(d))),
                                None => Err(ParseError::InvalidNumber),
                            }
                        } else {
                            Err(ParseError::Arity)
                        }
                    } else {
                        match plain_formation_from(&keys[1]) {
                            Some(f) => Ok(SwarmCommand::FORMATION(f)),
                            None => Err(ParseError::UnknownFormation),
                        }
                    }
                } else {
                    Err(ParseError::Unrecognized)
                }
            },
        }
    }

    /// Parses one line; `read` reads a rotation's argument as the bit pattern of a
    /// single-precision float, or returns `None` where it is no number.
    pub fn parse<F: Fn(&str) -> Option<u32>>(line: &str, read: &F) -> (r: Result<
        SwarmCommand,
        ParseError,
    >)
        requires
            forall|t: &str| read.requires((t,)),
        ensures
            exists|a: Option<u32>|
                (needs_angle(line@) ==> reads_as(read, words_of(line@)[1], a)) && r
                    == line_command(line@, a),
    {
        let chars = chars_of(line);
        let (r, Ghost(a)) = parse_chars(&chars, read);
        r
    }
}

/// Parses the line made of the characters `line`, and tells what its rotation argument read as.
fn parse_chars<F: Fn(&str) -> Option<u32>>(line: &Vec<char>, read: &F) -> (res: (
    Result<SwarmCommand, ParseError>,
    Ghost<Option<u32>>,
))
    requires
        forall|t: &str| read.requires((t,)),
    ensures
        res.0 == line_command(line@, res.1@),
        needs_angle(line@) ==> reads_as(read, words_of(line@)[1], res.1@),
{
    let words = split_words(line);
    let mut keys: Vec<Vec<char>> = Vec::new();
    let mut i: usize = 0;
    while i < words.len()
        invariant
            i <= words.len(),
            views(words@) == words_of(line@),
            keys.len() == i,
            forall|j: int| 0 <= j < i ==> (#[trigger] keys@[j])@ == upper_of(words@[j]@),
        decreases words.len() - i,
    {
        let w = text_of(&words[i]);
        keys.push(upper(w.as_str()));
        i += 1;
    }
    assert(views(keys@) =~= keys_of(words_of(line@)));
    let tn = ['T', 'U', 'R', 'N'];
    assert(tn@ == turn_key());
    if words.len() == 2 && same_chars(&keys[0], &tn) {
        let arg = text_of(&words[1]);
        let a = read(arg.as_str());
        assert(reads_as(read, words_of(line@)[1], a));
        (SwarmCommand::from_words(&words, &keys, a), Ghost(a))
    } else {
        (SwarmCommand::from_words(&words, &keys, None), Ghost(None))
    }
}

/// A program: commands in execution order, and the position of the next one to run.
#[derive(Clone, Debug)]
pub struct SwarmProgram {
    /// The list of commands
    pub commands: Vec<SwarmCommand>,
    /// Program counter pointing to current command
    pub program_counter: usize,
}

/// The commands of `lines` read in order, where `angles[i]` is what the rotation argument of
/// line `i` read as: blank lines are skipped, the first faulty line decides the error, and a
/// twenty-first command makes the program too long.
pub open spec fn program_of(lines: Seq<Seq<char>>, angles: Seq<Option<u32>>) -> Result<
    Seq<SwarmCommand>,
    ParseError,
>
    decreases lines.len(),
{
    if lines.len() == 0 {
        Ok(seq![])
    } else {
        match program_of(lines.drop_last(), angles) {
            Err(e) => Err(e),
            Ok(cmds) => match line_command(lines.last(), angles[lines.len() - 1]) {
                Err(ParseError::Blank) => Ok(cmds),
                Err(e) => Err(e),
                Ok(c) => if cmds.len() >= MAX_NUM_COMMANDS {
                    Err(ParseError::TooLong)
                } else {
                    Ok(cmds.push(c))
                },
            },
        }
    }
}

/// Each line that the reading reaches and that holds a rotation was read through `read`.
pub open spec fn angles_read<F: Fn(&str) -> Option<u32>>(
    read: &F,
    lines: Seq<Seq<char>>,
    angles: Seq<Option<u32>>,
) -> bool {
    angles.len() == lines.len() && forall|i: int|
        0 <= i < lines.len() && #[trigger] needs_angle(lines[i]) && program_of(
            lines.take(i),
            angles,
        ) is Ok ==> reads_as(read, words_of(lines[i])[1], angles[i])
}

/// A program reads only the angles of its own lines.
pub proof fn lemma_program_angles(lines: Seq<Seq<char>>, a: Seq<Option<u32>>, b: Seq<Option<u32>>)
    requires
        a.len() >= lines.len(),
        b.len() >= lines.len(),
        forall|i: int| 0 <= i < lines.len() ==> a[i] == b[i],
    ensures
        program_of(lines, a) == program_of(lines, b),
    decreases lines.len(),
{
    if lines.len() > 0 {
        lemma_program_angles(lines.drop_last(), a, b);
    }
}

/// Once a prefix of the lines fails, the whole program fails the same way.
pub proof fn lemma_program_error_stays(lines: Seq<Seq<char>>, angles: Seq<Option<u32>>, k: int)
    requires
        0 <= k <= lines.len(),
        program_of(lines.take(k), angles) is Err,
    ensures
        program_of(lines, angles) == program_of(lines.take(k), angles),
    decreases lines.len(),
{
    if k < lines.len() {
        assert(lines.drop_last().take(k) =~= lines.take(k));
        lemma_program_error_stays(lines.drop_last(), angles, k);
    } else {
        assert(lines.take(k) =~= lines);
    }
}

/// `r` is what reading `text` gives, where line `i`'s rotation argument read as `angles[i]`.
pub open spec fn parsed_as<F: Fn(&str) -> Option<u32>>(
    read: &F,
    text: Seq<char>,
    angles: Seq<Option<u32>>,
    r: Result<SwarmProgram, ParseError>,
) -> bool {
    &&& angles_read(read, lines_of(text), angles)
    &&& match r {
        Ok(p) => program_of(lines_of(text), angles) == Ok::<Seq<SwarmCommand>, ParseError>(
            p.commands@,
        ) && p.program_counter == 0,
        Err(e) => program_of(lines_of(text), angles) == Err::<Seq<SwarmCommand>, ParseError>(e),
    }
}

/// A reading that stopped at a failing prefix: the angles of the lines it never reached do not
/// matter, and the whole program fails as the prefix does.
proof fn lemma_failed_reading<F: Fn(&str) -> Option<u32>>(
    read: &F,
    all: Seq<Seq<char>>,
    angles: Seq<Option<u32>>,
    full: Seq<Option<u32>>,
    k: int,
)
    requires
        0 <= k <= all.len(),
        angles_read(read, all.take(k), angles),
        program_of(all.take(k), angles) is Err,
        full.len() == all.len(),
        forall|j: int| 0 <= j < k ==> full[j] == angles[j],
    ensures
        angles_read(read, all, full),
        program_of(all, full) == program_of(all.take(k), angles),
{
    lemma_program_angles(all.take(k), angles, full);
    lemma_program_error_stays(all, full, k);
    assert forall|j: int|
        0 <= j < all.len() && #[trigger] needs_angle(all[j]) && program_of(all.take(j), full)
            is Ok implies reads_as(read, words_of(all[j])[1], full[j]) by {
        if j < k {
            assert(all.take(k).take(j) =~= all.take(j));
            lemma_program_angles(all.take(j), angles, full);
            assert(all.take(k)[j] == all[j]);
            assert(needs_angle(all.take(k)[j]));
        } else {
            assert(all.take(j).take(k) =~= all.take(k));
            lemma_program_error_stays(all.take(j), full, k);
        }
    }
}

impl SwarmProgram {
    /// A program over `commands`, starting at the first.
    pub fn new(commands: Vec<SwarmCommand>) -> (r: SwarmProgram)
        ensures
            r.commands@ == commands@,
            r.program_counter == 0,
    {
        SwarmProgram { commands: commands, program_counter: 0 }
    }

    /// Parses a program of one command per line; `read` reads a rotation's argument as the
    /// bit pattern of a single-precision float, or returns `None` where it is no number.
    pub fn parse<F: Fn(&str) -> Option<u32>>(text: &str, read: &F) -> (r: Result<
        SwarmProgram,
        ParseError,
    >)
        requires
            forall|t: &str| read.requires((t,)),
        ensures
            exists|angles: Seq<Option<u32>>| parsed_as(read, text@, angles, r),
            r is Ok ==> r->Ok_0.commands.len() <= MAX_NUM_COMMANDS,
    {
        let chars = chars_of(text);
        let lines = split_lines(&chars);
        let ghost all = lines_of(text@);
        let mut commands: Vec<SwarmCommand> = Vec::new();
        let ghost mut angles: Seq<Option<u32>> = seq![];
        let mut i: usize = 0;
        while i < lines.len()
            invariant
                i <= lines.len(),
                views(lines@) == all,
                all == lines_of(text@),
                forall|t: &str| read.requires((t,)),
                angles_read(read, all.take(i as int), angles),
                program_of(all.take(i as int), angles) == Ok::<Seq<SwarmCommand>, ParseError>(
                    commands@,
                ),
                commands.len() <= MAX_NUM_COMMANDS,
            decreases lines.len() - i,
        {
            let (res, Ghost(a)) = parse_chars(&lines[i], read);
            let ghost before = angles;
            proof {
                angles = angles.push(a);
                assert(all.take(i + 1).drop_last() =~= all.take(i as int));
                assert(views(lines@)[i as int] == lines@[i as int]@);
                assert(all.take(i + 1)[i as int] == all[i as int]);
                assert(all.take(i + 1).last() == all[i as int]);
                assert(angles[i as int] == a);
                lemma_program_angles(all.take(i as int), before, angles);
                assert forall|j: int|
                    0 <= j < i + 1 && #[trigger] needs_angle(all.take(i + 1)[j]) && program_of(
                        all.take(i + 1).take(j),
                        angles,
                    ) is Ok implies reads_as(
                    read,
                    words_of(all.take(i + 1)[j])[1],
                    angles[j],
                ) by {
                    if j < i {
                        assert(all.take(i + 1).take(j) =~= all.take(j));
                        assert(all.take(i as int).take(j) =~= all.take(j));
                        lemma_program_angles(all.take(j), before, angles);
                        assert(all.take(i as int)[j] == all.take(i + 1)[j]);
                        assert(needs_angle(all.take(i as int)[j]));
                        assert(angles[j] == before[j]);
                    } else {
                        assert(j == i);
                        assert(all.take(i + 1).take(j) =~= all.take(i as int));
                        assert(all.take(i + 1)[j] == lines@[i as int]@);
                        assert(angles[j] == a);
                    }
                }
            }
            match res {
                Err(ParseError::Blank) => {},
                Err(e) => {
                    let ghost full = angles + Seq::new(
                        (all.len() - i - 1) as nat,
                        |n: int| None::<u32>,
                    );
                    proof {
                        assert(program_of(all.take(i + 1), angles) == Err::<
                            Seq<SwarmCommand>,
                            ParseError,
                        >(e));
                        lemma_failed_reading(read, all, angles, full, i + 1);
                        assert(angles_read(read, all, full));
                        assert(parsed_as(read, text@, full, Err(e)));
                    }
                    return Err(e);
                },
                Ok(c) => {
                    if commands.len() >= MAX_NUM_COMMANDS {
                        let ghost full = angles + Seq::new(
                            (all.len() - i - 1) as nat,
                            |n: int| None::<u32>,
                        );
                        proof {
                            assert(program_of(all.take(i + 1), angles) == Err::<
                                Seq<SwarmCommand>,
                                ParseError,
                            >(ParseError::TooLong));
                            lemma_failed_reading(read, all, angles, full, i + 1);
                            assert(angles_read(read, all, full));
                            assert(parsed_as(read, text@, full, Err(ParseError::TooLong)));
                        }
                        return Err(ParseError::TooLong);
                    }
                    commands.push(c);
                },
            }
            i += 1;
        }
        assert(all.take(lines.len() as int) =~= all);
        let p = SwarmProgram::new(commands);
        assert(parsed_as(read, text@, angles, Ok(p)));
        Ok(p)
    }
}

/// A line made of a single fixed-arity opcode, written in any case, is exactly that command.
pub proof fn fixed_opcode_round_trip(line: Seq<char>, angle: Option<u32>, c: SwarmCommand)
    requires
        words_of(line).len() == 1,
        fixed_command(upper_of(words_of(line)[0])) == Some(c),
    ensures
        line_command(line, angle) == Ok::<SwarmCommand, ParseError>(c),
{
}

/// A rotation is accepted exactly when its value is normal and its magnitude, compared as
/// IEEE-754 bits, is no more than that of 30.0 (`0x41f0_0000`); any other normal value is out
/// of range, and zero, subnormals, infinities and NaN are invalid.
pub proof fn turn_bounds(bits: u32)
    ensures
        turn_command(Some(bits)) is Ok <==> is_normal_bits(bits) && (bits & 0x7fff_ffffu32)
            <= 0x41f0_0000u32,
        !is_normal_bits(bits) ==> turn_command(Some(bits)) == Err::<SwarmCommand, ParseError>(
            ParseError::InvalidNumber,
        ),
        is_normal_bits(bits) && (bits & 0x7fff_ffffu32) > 0x41f0_0000u32 ==> turn_command(
            Some(bits),
        ) == Err::<SwarmCommand, ParseError>(ParseError::OutOfRange),
        turn_command(None) == Err::<SwarmCommand, ParseError>(ParseError::InvalidNumber),
{
    assert(within_turn_limit(bits) <==> (bits & 0x7fff_ffffu32) <= 0x41f0_0000u32) by (bit_vector);
}

/// `FORMATION GATHER` and `FORMATION SPREAD`, in any case, are the plain formations;
/// `FORMATION SIERPINSKI d` carries depth `d`; a Sierpinski formation without its depth, or
/// with more than one, is rejected.
pub proof fn formation_dispatch(line: Seq<char>, angle: Option<u32>)
    requires
        words_of(line).len() >= 2,
        upper_of(words_of(line)[0]) == formation_key(),
    ensures
        forall|f: Formation|
            #[trigger] plain_formation(upper_of(words_of(line)[1])) == Some(f) ==> line_command(
                line,
                angle,
            ) == Ok::<SwarmCommand, ParseError>(SwarmCommand::FORMATION(f)),
        forall|d: u32|
            upper_of(words_of(line)[1]) == sierpinski_key() && words_of(line).len() == 3 && #[trigger] u32_of(
                words_of(line)[2],
            ) == Some(d) ==> line_command(line, angle) == Ok::<SwarmCommand, ParseError>(
                SwarmCommand::FORMATION(Formation::SIERPINSKI(d)),
            ),
        upper_of(words_of(line)[1]) == sierpinski_key() && words_of(line).len() != 3
            ==> line_command(line, angle) == Err::<SwarmCommand, ParseError>(ParseError::Arity),
{
    let w = words_of(line);
    assert(keys_of(w)[0] == upper_of(w[0]));
    assert(keys_of(w)[1] == upper_of(w[1]));
    assert(fixed_command(formation_key()) is None);
}

/// A line whose first word, in upper case, names no command is unrecognized, whatever follows.
pub proof fn unknown_opcode_rejected(line: Seq<char>, angle: Option<u32>)
    requires
        words_of(line).len() >= 1,
        fixed_command(upper_of(words_of(line)[0])) is None,
        upper_of(words_of(line)[0]) != turn_key(),
        upper_of(words_of(line)[0]) != formation_key(),
    ensures
        line_command(line, angle) == Err::<SwarmCommand, ParseError>(ParseError::Unrecognized),
{
    assert(keys_of(words_of(line))[0] == upper_of(words_of(line)[0]));
}

/// Lines with the same words mean the same, however the whitespace around them is laid out.
pub proof fn whitespace_tolerance(a: Seq<char>, b: Seq<char>, angle: Option<u32>)
    requires
        words_of(a) == words_of(b),
    ensures
        line_command(a, angle) == line_command(b, angle),
{
}

/// The number of lines that hold a command.
pub open spec fn command_count(lines: Seq<Seq<char>>) -> nat
    decreases lines.len(),
{
    if lines.len() == 0 {
        0
    } else {
        command_count(lines.drop_last()) + if words_of(lines.last()).len() == 0 {
            0nat
        } else {
            1nat
        }
    }
}

/// When every line is blank or a valid command, the program is accepted exactly when it holds
/// at most twenty commands, blank lines not counted, and is otherwise too long.
pub proof fn program_length_bound(lines: Seq<Seq<char>>, angles: Seq<Option<u32>>)
    requires
        angles.len() >= lines.len(),
        forall|i: int|
            0 <= i < lines.len() ==> #[trigger] line_command(lines[i], angles[i]) is Ok || words_of(
                lines[i],
            ).len() == 0,
    ensures
        program_of(lines, angles) is Ok <==> command_count(lines) <= MAX_NUM_COMMANDS,
        program_of(lines, angles) is Ok ==> program_of(lines, angles)->Ok_0.len() == command_count(
            lines,
        ),
        program_of(lines, angles) is Err ==> program_of(lines, angles) == Err::<
            Seq<SwarmCommand>,
            ParseError,
        >(ParseError::TooLong),
    decreases lines.len(),
{
    if lines.len() > 0 {
        let prefix = lines.drop_last();
        assert forall|i: int| 0 <= i < prefix.len() implies #[trigger] line_command(
            prefix[i],
            angles[i],
        ) is Ok || words_of(prefix[i]).len() == 0 by {
            assert(prefix[i] == lines[i]);
            assert(line_command(lines[i], angles[i]) is Ok || words_of(lines[i]).len() == 0);
        }
        program_length_bound(prefix, angles);
        let k = lines.len() - 1;
        assert(line_command(lines[k], angles[k]) is Ok || words_of(lines[k]).len() == 0);
        if words_of(lines.last()).len() == 0 {
            assert(line_command(lines.last(), angles[k]) == Err::<SwarmCommand, ParseError>(
                ParseError::Blank,
            ));
        }
    }
}

/// On a text whose every line is blank or a valid command, `SwarmProgram::parse` succeeds
/// exactly when the text holds at most twenty commands, blank lines not counted, and otherwise
/// fails as too long.
pub proof fn parse_length_bound<F: Fn(&str) -> Option<u32>>(
    read: &F,
    text: Seq<char>,
    angles: Seq<Option<u32>>,
    r: Result<SwarmProgram, ParseError>,
)
    requires
        parsed_as(read, text, angles, r),
        forall|i: int|
            0 <= i < lines_of(text).len() ==> #[trigger] line_command(lines_of(text)[i], angles[i])
                is Ok || words_of(lines_of(text)[i]).len() == 0,
    ensures
        r is Ok <==> command_count(lines_of(text)) <= MAX_NUM_COMMANDS,
        r is Ok ==> r->Ok_0.commands@.len() == command_count(lines_of(text)),
        r is Err ==> r == Err::<SwarmProgram, ParseError>(ParseError::TooLong),
{
    program_length_bound(lines_of(text), angles);
}

/// Programs whose lines hold the same words, line by line, read the same, however the
/// whitespace within and around each line is laid out.
pub proof fn program_whitespace_tolerance(
    a: Seq<Seq<char>>,
    b: Seq<Seq<char>>,
    angles: Seq<Option<u32>>,
)
    requires
        a.len() == b.len(),
        forall|i: int| 0 <= i < a.len() ==> #[trigger] words_of(a[i]) == words_of(b[i]),
    ensures
        program_of(a, angles) == program_of(b, angles),
    decreases a.len(),
{
    if a.len() > 0 {
        let k = a.len() - 1;
        assert(words_of(a[k]) == words_of(b[k]));
        assert forall|i: int| 0 <= i < a.drop_last().len() implies #[trigger] words_of(
            a.drop_last()[i],
        ) == words_of(b.drop_last()[i]) by {
            assert(words_of(a[i]) == words_of(b[i]));
        }
        program_whitespace_tolerance(a.drop_last(), b.drop_last(), angles);
    }
}

/// A blank line anywhere in a program adds nothing to it, whatever its angle slot holds.
pub proof fn blank_line_anywhere(
    lines: Seq<Seq<char>>,
    angles: Seq<Option<u32>>,
    k: int,
    blank: Seq<char>,
    angle: Option<u32>,
)
    requires
        0 <= k <= lines.len(),
        angles.len() >= lines.len(),
        words_of(blank).len() == 0,
    ensures
        program_of(lines.insert(k, blank), angles.insert(k, angle)) == program_of(lines, angles),
    decreases lines.len(),
{
    let longer = lines.insert(k, blank);
    let shifted = angles.insert(k, angle);
    if k == lines.len() {
        assert(longer.drop_last() =~= lines);
        lemma_program_angles(lines, shifted, angles);
        assert(line_command(longer.last(), shifted[lines.len() as int]) == Err::<
            SwarmCommand,
            ParseError,
        >(ParseError::Blank));
    } else {
        let n = lines.len() - 1;
        assert(longer.drop_last() =~= lines.drop_last().insert(k, blank));
        blank_line_anywhere(lines.drop_last(), angles, k, blank, angle);
        assert(longer.last() == lines.last());
        assert(shifted[longer.len() - 1] == angles[n]);
    }
}

} // verus!
