use heroesoftheswarm::language::{
    turn_from, Angle, Formation, ParseError, SwarmCommand, SwarmProgram, MAX_NUM_COMMANDS,
};

fn read_angle(t: &str) -> Option<u32> {
    t.parse::<f32>().ok().map(f32::to_bits)
}

fn command(line: &str) -> Result<SwarmCommand, ParseError> {
    SwarmCommand::parse(line, &read_angle)
}

fn program(text: &str) -> Result<SwarmProgram, ParseError> {
    SwarmProgram::parse(text, &read_angle)
}

fn turn(degrees: f32) -> SwarmCommand {
    SwarmCommand::TURN(Angle::from_bits(degrees.to_bits()))
}

#[test]
fn test_comlist_generator() {
    let program_text: String =
        "MOVE\nFIRE\nMOVE\nTURN -30.0\nNOOP\nNOOP\n\t \n  \t\n\nMOVE\nFIRE".into();
    let command_list: SwarmProgram = match program(&program_text) {
        Ok(comlist) => comlist,
        Err(error) => panic!("Program failed with error: {}", error.description()),
    };
    assert_eq!(command_list.commands.len(), 8);
    assert_eq!(command_list.commands[0], SwarmCommand::MOVE);
    assert_eq!(command_list.commands[1], SwarmCommand::FIRE);
    assert_eq!(command_list.commands[2], SwarmCommand::MOVE);
    assert_eq!(command_list.commands[3], turn(-30.0));
    assert_eq!(command_list.commands[4], SwarmCommand::NOOP);
    assert_eq!(command_list.commands[5], SwarmCommand::NOOP);
    assert_eq!(command_list.commands[6], SwarmCommand::MOVE);
    assert_eq!(command_list.commands[7], SwarmCommand::FIRE);
    assert_eq!(command_list.program_counter, 0);
}

#[test]
#[should_panic]
fn parse_swarm_command() {
    let _command: SwarmCommand = command("test").unwrap();
}

#[test]
#[should_panic]
fn parse_swarm_program() {
    let _program: SwarmProgram = program("test").unwrap();
}

#[test]
fn fixed_opcodes_in_any_case() {
    let cases = [
        ("MOVE", SwarmCommand::MOVE),
        ("move", SwarmCommand::MOVE),
        ("MOve", SwarmCommand::MOVE),
        ("left", SwarmCommand::LEFT),
        ("Right", SwarmCommand::RIGHT),
        ("uP", SwarmCommand::UP),
        ("DOWN", SwarmCommand::DOWN),
        ("fire", SwarmCommand::FIRE),
        ("nOOp", SwarmCommand::NOOP),
    ];
    for (text, expected) in cases.iter() {
        assert_eq!(command(text), Ok(*expected));
    }
}

#[test]
fn fixed_opcode_with_argument_is_arity_error() {
    assert_eq!(command("MOVE 5"), Err(ParseError::Arity));
    assert_eq!(command("noop now"), Err(ParseError::Arity));
}

#[test]
fn turn_boundaries() {
    assert_eq!(command("TURN 30.0"), Ok(turn(30.0)));
    assert_eq!(command("turn -30.0"), Ok(turn(-30.0)));
    assert_eq!(command("TURN -29.5"), Ok(turn(-29.5)));
    assert_eq!(command("TURN 30.5"), Err(ParseError::OutOfRange));
    assert_eq!(command("TURN -31"), Err(ParseError::OutOfRange));
    assert_eq!(command("TURN 1e30"), Err(ParseError::OutOfRange));
}

#[test]
fn turn_rejects_non_normal_values() {
    assert_eq!(command("TURN inf"), Err(ParseError::InvalidNumber));
    assert_eq!(command("TURN -inf"), Err(ParseError::InvalidNumber));
    assert_eq!(command("TURN NaN"), Err(ParseError::InvalidNumber));
    assert_eq!(command("TURN 1e-40"), Err(ParseError::InvalidNumber));
    assert_eq!(command("TURN 0"), Err(ParseError::InvalidNumber));
    assert_eq!(command("TURN abc"), Err(ParseError::InvalidNumber));
}

#[test]
fn turn_arity() {
    assert_eq!(command("TURN"), Err(ParseError::Arity));
    assert_eq!(command("TURN 1 2"), Err(ParseError::Arity));
}

#[test]
fn turn_from_bit_patterns() {
    assert_eq!(turn_from(Some(0x41f0_0000)), Ok(turn(30.0)));
    assert_eq!(turn_from(Some(0xc1f0_0000)), Ok(turn(-30.0)));
    assert_eq!(turn_from(Some(0x41f0_0001)), Err(ParseError::OutOfRange));
    assert_eq!(turn_from(Some(0x7f80_0000)), Err(ParseError::InvalidNumber));
    assert_eq!(turn_from(Some(0)), Err(ParseError::InvalidNumber));
    assert_eq!(turn_from(None), Err(ParseError::InvalidNumber));
}

#[test]
fn formation_dispatch() {
    let gather = Ok(SwarmCommand::FORMATION(Formation::GATHER));
    let spread = Ok(SwarmCommand::FORMATION(Formation::SPREAD));
    assert_eq!(command("FORMATION GATHER"), gather);
    assert_eq!(command("formation gather"), gather);
    assert_eq!(command("FORMATION SPREAD"), spread);
    assert_eq!(command("Formation sPrEaD"), spread);
    assert_eq!(command("FORMATION GATHER extra"), gather);
    assert_eq!(
        command("FORMATION SIERPINSKI 3"),
        Ok(SwarmCommand::FORMATION(Formation::SIERPINSKI(3)))
    );
    assert_eq!(
        command("formation sierpinski +12"),
        Ok(SwarmCommand::FORMATION(Formation::SIERPINSKI(12)))
    );
    assert_eq!(command("FORMATION SIERPINSKI"), Err(ParseError::Arity));
    assert_eq!(command("FORMATION SIERPINSKI 3 4"), Err(ParseError::Arity));
    assert_eq!(command("FORMATION SIERPINSKI -1"), Err(ParseError::InvalidNumber));
    assert_eq!(command("FORMATION SIERPINSKI 4294967296"), Err(ParseError::InvalidNumber));
    assert_eq!(command("FORMATION"), Err(ParseError::Arity));
    assert_eq!(command("FORMATION CIRCLE"), Err(ParseError::UnknownFormation));
}

#[test]
fn formation_names() {
    assert_eq!(Formation::parse("gather"), Ok(Formation::GATHER));
    assert_eq!(Formation::parse("SPREAD"), Ok(Formation::SPREAD));
    assert_eq!(Formation::parse("sierpinski"), Err(ParseError::UnknownFormation));
}

#[test]
fn unrecognized_and_blank() {
    assert_eq!(command("FOOBAR"), Err(ParseError::Unrecognized));
    assert_eq!(command("jump 3"), Err(ParseError::Unrecognized));
    assert_eq!(command(""), Err(ParseError::Blank));
    assert_eq!(command(" \t "), Err(ParseError::Blank));
}

#[test]
fn from_words_uses_given_keys() {
    let words = vec![vec!['x']];
    let keys = vec![vec!['F', 'I', 'R', 'E']];
    assert_eq!(SwarmCommand::from_words(&words, &keys, None), Ok(SwarmCommand::FIRE));
    let turn_words = vec![vec!['t'], vec!['1']];
    let turn_keys = vec![vec!['T', 'U', 'R', 'N'], vec!['1']];
    assert_eq!(
        SwarmCommand::from_words(&turn_words, &turn_keys, Some(10.0f32.to_bits())),
        Ok(turn(10.0))
    );
}

#[test]
fn twenty_commands_accepted() {
    let text = vec!["MOVE"; MAX_NUM_COMMANDS].join("\n");
    assert_eq!(program(&text).unwrap().commands.len(), 20);
}

#[test]
fn twenty_one_commands_too_long() {
    let text = vec!["FIRE"; 21].join("\n");
    assert_eq!(program(&text).err(), Some(ParseError::TooLong));
}

#[test]
fn blank_lines_do_not_count() {
    let mut lines = vec!["NOOP"; 20];
    for _ in 0..5 {
        lines.push("   ");
    }
    lines.insert(3, "");
    let text = lines.join("\n");
    assert_eq!(program(&text).unwrap().commands.len(), 20);
}

#[test]
fn first_error_wins() {
    assert_eq!(program("MOVE\nTURN 45\nFOOBAR").err(), Some(ParseError::OutOfRange));
    assert_eq!(program("MOVE\nFOOBAR\nTURN 45").err(), Some(ParseError::Unrecognized));
    let mut lines = vec!["UP"; 21];
    lines.push("FOOBAR");
    assert_eq!(program(&lines.join("\n")).err(), Some(ParseError::TooLong));
}

#[test]
fn whitespace_tolerance() {
    let loose = program("  MOVE  \n\t\n\tturn\t -10.5 \r\n\n   FORMATION   spread \n").unwrap();
    let tight = program("MOVE\nturn -10.5\nFORMATION spread").unwrap();
    assert_eq!(loose.commands, tight.commands);
    assert_eq!(loose.commands.len(), 3);
}

#[test]
fn empty_program() {
    let p = program("").unwrap();
    assert!(p.commands.is_empty());
    assert_eq!(p.program_counter, 0);
}

#[test]
fn new_program_starts_at_zero() {
    let p = SwarmProgram::new(vec![SwarmCommand::UP, SwarmCommand::DOWN]);
    assert_eq!(p.commands, vec![SwarmCommand::UP, SwarmCommand::DOWN]);
    assert_eq!(p.program_counter, 0);
}

#[test]
fn angle_bits() {
    let a = Angle::from_bits(0x4120_0000);
    assert_eq!(a.to_bits(), 0x4120_0000);
    assert_eq!(f32::from_bits(a.to_bits()), 10.0);
}

#[test]
fn error_descriptions() {
    assert_eq!(ParseError::TooLong.description(), "Program is too long: use fewer commands.");
    assert_eq!(ParseError::Unrecognized.description(), "Command not recognized.");
    assert_ne!(ParseError::Arity.description(), ParseError::OutOfRange.description());
}
