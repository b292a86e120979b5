use jsprint::commands_processor::{CommandProcessor, Dispatch};
use jsprint::jsprint::JSprint;
use jsprint::repl::{turn, Turn};

type CommandFnDef = fn(&mut JSprint, &str);

fn dummy_command(_jsprint: &mut JSprint, _line: &str) {}

fn other_command(jsprint: &mut JSprint, _line: &str) {
    jsprint.current_sprint = None;
}

#[test]
fn register_command() {
    let mut processor: CommandProcessor<CommandFnDef> = CommandProcessor::new();
    processor.register_command("test", dummy_command);

    let result = processor.get_command("test");
    let expected: CommandFnDef = dummy_command;

    assert!(result.is_some());

    let result_ptr = *result.unwrap() as usize;
    let expected_ptr = expected as usize;

    assert_eq!(result_ptr, expected_ptr);
}

#[test]
fn unknwon_command() {
    let processor: CommandProcessor<CommandFnDef> = CommandProcessor::new();

    let result = processor.get_command("test");

    assert!(result.is_none());
}

#[test]
fn registering_a_name_again_overwrites() {
    let mut processor: CommandProcessor<u32> = CommandProcessor::new();
    processor.register_command("sp", 1);
    processor.register_command("bk", 2);
    processor.register_command("sp", 3);
    assert_eq!(processor.get_command("sp"), Some(&3));
    assert_eq!(processor.get_command("bk"), Some(&2));
    assert_eq!(processor.help(), vec!["bk".to_string(), "sp".to_string()]);
}

#[test]
fn registered_handler_is_the_one_resolved() {
    let mut processor: CommandProcessor<CommandFnDef> = CommandProcessor::new();
    processor.register_command("a", dummy_command);
    processor.register_command("b", other_command);
    let expected: CommandFnDef = other_command;
    assert_eq!(*processor.get_command("b").unwrap() as usize, expected as usize);
}

#[test]
fn help_lists_names_in_order() {
    let mut processor: CommandProcessor<u32> = CommandProcessor::new();
    for (i, name) in ["sp", "sps", "rp", "rw", "bk", "lcount", "u", "a", "as"].iter().enumerate() {
        processor.register_command(name, i as u32);
    }
    let expected: Vec<String> =
        ["a", "as", "bk", "lcount", "rp", "rw", "sp", "sps", "u"].iter().map(|s| s.to_string()).collect();
    assert_eq!(processor.help(), expected);
    match processor.process("help") {
        Dispatch::Help(names) => assert_eq!(names, expected),
        _ => panic!("help was not recognised"),
    }
    match processor.process("  h  now") {
        Dispatch::Help(names) => assert_eq!(names, expected),
        _ => panic!("h was not recognised"),
    }
}

#[test]
fn process_resolves_the_first_word() {
    let mut processor: CommandProcessor<u32> = CommandProcessor::new();
    processor.register_command("sp", 7);
    processor.register_command("h", 8);
    assert!(matches!(processor.process("sp"), Dispatch::Run(&7)));
    assert!(matches!(processor.process("\tsp 1 2"), Dispatch::Run(&7)));
    assert!(matches!(processor.process(""), Dispatch::Nothing));
    assert!(matches!(processor.process(" \u{3000}\n"), Dispatch::Nothing));
    assert!(matches!(processor.process("h"), Dispatch::Help(_)));
    match processor.process("spx 1") {
        Dispatch::Unknown(name) => assert_eq!(name, "spx"),
        _ => panic!("an unknown command was resolved"),
    }
}

#[test]
fn loop_stops_on_quit_and_end_of_input() {
    let mut processor: CommandProcessor<u32> = CommandProcessor::new();
    processor.register_command("sp", 7);
    assert!(matches!(turn(&processor, None), Turn::Stop));
    assert!(matches!(turn(&processor, Some("q")), Turn::Stop));
    assert!(matches!(turn(&processor, Some("quit")), Turn::Stop));
    assert!(matches!(turn(&processor, Some("sp")), Turn::Dispatch(Dispatch::Run(&7))));
    assert!(matches!(turn(&processor, Some("")), Turn::Dispatch(Dispatch::Nothing)));
    match turn(&processor, Some(" q")) {
        Turn::Dispatch(Dispatch::Unknown(name)) => assert_eq!(name, "q"),
        _ => panic!("a line that is not exactly q was taken for it"),
    }
    match turn(&processor, Some("quit now")) {
        Turn::Dispatch(Dispatch::Unknown(name)) => assert_eq!(name, "quit"),
        _ => panic!("a line that is not exactly quit was taken for it"),
    }
}
