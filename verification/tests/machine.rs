use brainfuck::inst::{decode, Inst};
use brainfuck::machine::Fault;
use brainfuck::state::State;

const HELLO: &str = "++++++++[>++++[>++>+++>+++>+<<<<-]>+>+>->>\
     +[<]<-]>>.>---.+++++++..+++.>>.<-.<.+++.------.--------.>>+.>++.";

const NO_LIMIT: u64 = u64::MAX;

#[test]
fn decode_knows_the_eight_commands() {
    assert_eq!(decode('>'), Some(Inst::IncPtr));
    assert_eq!(decode('<'), Some(Inst::DecPtr));
    assert_eq!(decode('+'), Some(Inst::IncData));
    assert_eq!(decode('-'), Some(Inst::DecData));
    assert_eq!(decode(','), Some(Inst::In));
    assert_eq!(decode('.'), Some(Inst::Out));
    assert_eq!(decode('['), Some(Inst::Forward));
    assert_eq!(decode(']'), Some(Inst::Back));
}

#[test]
fn decode_drops_everything_else() {
    assert_eq!(decode('a'), None);
    assert_eq!(decode(' '), None);
    assert_eq!(decode('\n'), None);
    assert_eq!(decode('0'), None);
    assert_eq!(decode('é'), None);
}

#[test]
fn comments_make_an_empty_program() {
    let mut state = State::from_str("no commands here at all\n");
    assert_eq!(state.get_inst(&0), Inst::Null);
    assert!(!state.terminated());
    let report = state.run(&vec![1, 2, 3], NO_LIMIT);
    assert!(state.terminated());
    assert_eq!(state.inst_ptr(), 0);
    assert_eq!(state.data_ptr(), 0);
    assert_eq!(state.depth(), 0);
    assert_eq!(report.output, Vec::<u8>::new());
    assert_eq!(report.consumed, 0);
    assert_eq!(report.fault, None);
}

#[test]
fn empty_text_terminates_on_the_first_step() {
    let mut state = State::from_str("");
    assert_eq!(state.step(None), Ok(None));
    assert!(state.terminated());
    assert_eq!(state.inst_ptr(), 0);
}

#[test]
fn comments_between_commands_leave_no_instruction() {
    let mut state = State::from_str("a+b-c>d<e,f.g[h]i");
    let expected = [
        Inst::IncData,
        Inst::DecData,
        Inst::IncPtr,
        Inst::DecPtr,
        Inst::In,
        Inst::Out,
        Inst::Forward,
        Inst::Back,
    ];
    for (at, inst) in expected.iter().enumerate() {
        assert_eq!(state.get_inst(&at), *inst);
    }
    assert_eq!(state.get_inst(&8), Inst::Null);
}

#[test]
fn from_chars_takes_the_rest_of_the_iterator() {
    let mut chars = "+>-".chars();
    assert_eq!(chars.next(), Some('+'));
    let mut state = State::from_chars(&mut chars);
    assert_eq!(chars.next(), None);
    assert_eq!(state.get_inst(&0), Inst::IncPtr);
    assert_eq!(state.get_inst(&1), Inst::DecData);
    assert_eq!(state.get_inst(&2), Inst::Null);
    assert_eq!(state.inst_ptr(), 0);
    assert_eq!(state.data_ptr(), 0);
    assert_eq!(state.depth(), 0);
    assert!(!state.terminated());
}

#[test]
fn parse_chars_appends_to_the_tape() {
    let mut tape = vec![Inst::Out];
    State::parse_chars(&mut "x[y]".chars(), &mut tape);
    assert_eq!(tape, vec![Inst::Out, Inst::Forward, Inst::Back]);
}

#[test]
fn increments_add_up() {
    let mut state = State::from_str("+++++");
    let report = state.run(&vec![], NO_LIMIT);
    assert_eq!(report.fault, None);
    assert!(state.terminated());
    assert_eq!(state.get_data(&0), 5);
    assert_eq!(state.inst_ptr(), 5);
}

#[test]
fn increments_and_decrements_give_the_algebraic_sum() {
    let mut state = State::from_str("+++--+----");
    state.run(&vec![], NO_LIMIT);
    assert_eq!(state.get_data(&0), -2);
}

#[test]
fn untouched_cells_read_zero() {
    let mut state = State::from_str(">>+");
    assert_eq!(state.get_data(&0), 0);
    assert_eq!(state.get_data(&2), 0);
    assert_eq!(state.get_data(&usize::MAX), 0);
    state.run(&vec![], NO_LIMIT);
    assert_eq!(state.get_data(&0), 0);
    assert_eq!(state.get_data(&1), 0);
    assert_eq!(state.get_data(&2), 1);
}

#[test]
fn a_cell_set_to_zero_acts_as_an_untouched_one() {
    let mut written = State::from_str("+-[+.]+.");
    let mut untouched = State::from_str("[+.]+.");
    let a = written.run(&vec![], NO_LIMIT);
    let b = untouched.run(&vec![], NO_LIMIT);
    assert_eq!(a.output, vec![1]);
    assert_eq!(b.output, vec![1]);
    assert_eq!(a.fault, None);
    assert_eq!(b.fault, None);
    assert_eq!(written.get_data(&0), untouched.get_data(&0));
}

#[test]
fn get_data_mut_creates_and_writes() {
    let mut state = State::from_str(".");
    {
        let cell = state.get_data_mut(&7);
        assert_eq!(*cell, 0);
        *cell = 42;
    }
    assert_eq!(state.get_data(&7), 42);
    {
        let cell = state.get_data_mut(&7);
        assert_eq!(*cell, 42);
        *cell -= 2;
    }
    assert_eq!(state.get_data(&7), 40);
    assert_eq!(state.get_data(&0), 0);
}

#[test]
fn one_increment_writes_one() {
    let mut state = State::from_str("+.");
    let report = state.run(&vec![], NO_LIMIT);
    assert_eq!(report.output, vec![1]);
    assert!(state.terminated());
}

#[test]
fn output_wraps_at_256() {
    let text = "+".repeat(256) + ".";
    let mut state = State::from_str(&text);
    let report = state.run(&vec![], NO_LIMIT);
    assert_eq!(report.output, vec![0]);
    assert_eq!(state.get_data(&0), 256);
}

#[test]
fn output_is_the_low_byte() {
    let mut state = State::from_str("....");
    *state.get_data_mut(&0) = 0x1234;
    assert_eq!(state.step(None), Ok(Some(0x34)));
    *state.get_data_mut(&0) = -1;
    assert_eq!(state.step(None), Ok(Some(255)));
    *state.get_data_mut(&0) = -256;
    assert_eq!(state.step(None), Ok(Some(0)));
    *state.get_data_mut(&0) = i64::MIN + 7;
    assert_eq!(state.step(None), Ok(Some(7)));
}

#[test]
fn decrement_loop_runs_three_times() {
    let mut state = State::from_str("+++[-]");
    let mut bodies = 0;
    let mut steps = 0;
    while !state.terminated() {
        if state.inst_ptr() == 4 {
            bodies += 1;
        }
        assert_eq!(state.step(None), Ok(None));
        steps += 1;
    }
    assert_eq!(bodies, 3);
    assert_eq!(steps, 3 + 1 + 3 + 3 + 1);
    assert_eq!(state.get_data(&0), 0);
    assert_eq!(state.depth(), 0);
    assert_eq!(state.inst_ptr(), 6);
}

#[test]
fn forward_with_a_nonzero_cell_enters_the_body() {
    let mut state = State::from_str("+[-]");
    assert_eq!(state.step(None), Ok(None));
    assert_eq!(state.inst_ptr(), 1);
    assert_eq!(state.depth(), 0);
    assert_eq!(state.step(None), Ok(None));
    assert_eq!(state.inst_ptr(), 2);
    assert_eq!(state.depth(), 1);
}

#[test]
fn forward_with_a_zero_cell_skips_the_loop() {
    let mut state = State::from_str("[+[+]+]>");
    assert_eq!(state.step(None), Ok(None));
    assert_eq!(state.inst_ptr(), 7);
    assert_eq!(state.depth(), 0);
    assert_eq!(state.get_data(&0), 0);
}

#[test]
fn back_with_a_zero_cell_leaves_the_loop() {
    let mut state = State::from_str("+[-]");
    for _ in 0..3 {
        assert_eq!(state.step(None), Ok(None));
    }
    assert_eq!(state.inst_ptr(), 3);
    assert_eq!(state.depth(), 1);
    assert_eq!(state.get_data(&0), 0);
    assert_eq!(state.step(None), Ok(None));
    assert_eq!(state.inst_ptr(), 4);
    assert_eq!(state.depth(), 0);
}

#[test]
fn back_with_a_nonzero_cell_goes_round() {
    let mut state = State::from_str("++[-]");
    for _ in 0..4 {
        assert_eq!(state.step(None), Ok(None));
    }
    assert_eq!(state.inst_ptr(), 4);
    assert_eq!(state.get_data(&0), 1);
    assert_eq!(state.step(None), Ok(None));
    assert_eq!(state.inst_ptr(), 3);
    assert_eq!(state.depth(), 1);
}

#[test]
fn searches_find_the_partner_across_nested_loops() {
    let mut state = State::from_str("[[][[]]]+");
    assert_eq!(state.find_matching_rbrace(), Some(7));
    assert_eq!(state.find_matching_lbrace(), None);
    assert_eq!(state.step(None), Ok(None));
    assert_eq!(state.inst_ptr(), 8);
    assert_eq!(state.find_matching_lbrace(), None);
    assert_eq!(state.find_matching_rbrace(), None);

    let mut inner = State::from_str("+[[-]]");
    for _ in 0..4 {
        assert_eq!(inner.step(None), Ok(None));
    }
    assert_eq!(inner.inst_ptr(), 4);
    assert_eq!(inner.find_matching_lbrace(), Some(2));
    assert_eq!(inner.find_matching_rbrace(), Some(5));
}

#[test]
fn search_skips_closed_loops_on_the_way() {
    let mut state = State::from_str("+[>[-]<[-]]");
    let mut last = 0;
    while !state.terminated() {
        last = state.inst_ptr();
        if last == 10 {
            assert_eq!(state.find_matching_lbrace(), Some(1));
        }
        if last == 1 {
            assert_eq!(state.find_matching_rbrace(), Some(10));
        }
        if last == 7 {
            assert_eq!(state.find_matching_rbrace(), Some(9));
        }
        assert_eq!(state.step(None), Ok(None));
    }
    assert_eq!(state.inst_ptr(), 11);
    assert_eq!(state.depth(), 0);
}

#[test]
fn unmatched_forward_is_found_only_when_executed() {
    let mut state = State::from_str("[+");
    assert_eq!(state.step(None), Err(Fault::UnmatchedBracket));
    assert_eq!(state.inst_ptr(), 0);
    assert!(!state.terminated());
    assert_eq!(state.step(None), Err(Fault::UnmatchedBracket));

    let mut entered = State::from_str("+[-");
    let report = entered.run(&vec![], NO_LIMIT);
    assert_eq!(report.fault, None);
    assert!(entered.terminated());
    assert_eq!(entered.depth(), 1);
}

#[test]
fn unmatched_back_is_found_only_when_executed() {
    let mut state = State::from_str("+]");
    assert_eq!(state.step(None), Ok(None));
    assert_eq!(state.step(None), Err(Fault::UnmatchedBracket));
    assert_eq!(state.inst_ptr(), 1);
    assert_eq!(state.get_data(&0), 1);

    let mut report_of = State::from_str("+.]+.");
    let report = report_of.run(&vec![], NO_LIMIT);
    assert_eq!(report.output, vec![1]);
    assert_eq!(report.fault, Some(Fault::UnmatchedBracket));
    assert!(!report_of.terminated());
    assert_eq!(report_of.inst_ptr(), 2);
}

#[test]
fn leaving_a_loop_that_was_not_entered_is_a_fault() {
    let mut state = State::from_str("]");
    assert_eq!(state.step(None), Err(Fault::DepthOutOfRange));
    assert_eq!(state.inst_ptr(), 0);
    assert_eq!(state.depth(), 0);
}

#[test]
fn moving_left_of_address_zero_is_a_fault() {
    let mut state = State::from_str("<");
    assert_eq!(state.step(None), Err(Fault::PointerOutOfRange));
    assert_eq!(state.data_ptr(), 0);
    assert_eq!(state.inst_ptr(), 0);

    let mut back = State::from_str("><<");
    let report = back.run(&vec![], NO_LIMIT);
    assert_eq!(report.fault, Some(Fault::PointerOutOfRange));
    assert_eq!(back.inst_ptr(), 2);
}

#[test]
fn a_cell_at_its_limit_is_a_fault() {
    let mut top = State::from_str("+");
    *top.get_data_mut(&0) = i64::MAX;
    assert_eq!(top.step(None), Err(Fault::CellOutOfRange));
    assert_eq!(top.get_data(&0), i64::MAX);

    let mut bottom = State::from_str("-");
    *bottom.get_data_mut(&0) = i64::MIN;
    assert_eq!(bottom.step(None), Err(Fault::CellOutOfRange));
    assert_eq!(bottom.get_data(&0), i64::MIN);
}

#[test]
fn pointer_moves_select_the_cell() {
    let mut state = State::from_str(">>+++<++");
    state.run(&vec![], NO_LIMIT);
    assert_eq!(state.data_ptr(), 1);
    assert_eq!(state.get_data(&2), 3);
    assert_eq!(state.get_data(&1), 2);
}

#[test]
fn input_is_stored_unsigned() {
    let mut state = State::from_str(",>,");
    assert!(state.wants_input());
    assert_eq!(state.step(Some(200)), Ok(None));
    assert_eq!(state.get_data(&0), 200);
    assert!(!state.wants_input());
    assert_eq!(state.step(Some(9)), Ok(None));
    assert_eq!(state.get_data(&1), 0);
    assert!(state.wants_input());
    assert_eq!(state.step(Some(0)), Ok(None));
    assert_eq!(state.get_data(&1), 0);
    assert!(!state.wants_input());
}

#[test]
fn end_of_input_stores_minus_one() {
    let mut state = State::from_str("+++,.");
    let report = state.run(&vec![], NO_LIMIT);
    assert_eq!(state.get_data(&0), -1);
    assert_eq!(report.output, vec![255]);
    assert_eq!(report.consumed, 0);
}

#[test]
fn run_echoes_its_input() {
    let mut state = State::from_str(",.,.,.,.");
    let report = state.run(&vec![104, 105, 255], NO_LIMIT);
    assert_eq!(report.output, vec![104, 105, 255, 255]);
    assert_eq!(report.consumed, 3);
    assert_eq!(report.fault, None);
    assert!(state.terminated());
}

#[test]
fn run_reads_only_what_the_program_asks_for() {
    let mut state = State::from_str(",+.");
    let report = state.run(&vec![7, 8, 9], NO_LIMIT);
    assert_eq!(report.output, vec![8]);
    assert_eq!(report.consumed, 1);
}

#[test]
fn run_stops_when_the_steps_are_used_up() {
    let mut state = State::from_str("+[]");
    let report = state.run(&vec![], 1000);
    assert_eq!(report.fault, None);
    assert!(!state.terminated());
    assert_eq!(state.get_data(&0), 1);

    let mut short = State::from_str("+++");
    short.run(&vec![], 2);
    assert_eq!(short.get_data(&0), 2);
    assert_eq!(short.inst_ptr(), 2);
    short.run(&vec![], 0);
    assert_eq!(short.inst_ptr(), 2);
    short.run(&vec![], 1);
    assert_eq!(short.inst_ptr(), 3);
    assert!(!short.terminated());
    short.run(&vec![], 1);
    assert!(short.terminated());
    assert_eq!(short.inst_ptr(), 3);
}

#[test]
fn a_terminated_machine_stays_as_it_is() {
    let mut state = State::from_str("+");
    state.run(&vec![], NO_LIMIT);
    assert!(state.terminated());
    assert_eq!(state.step(Some(3)), Ok(None));
    assert!(state.terminated());
    assert_eq!(state.inst_ptr(), 1);
    assert_eq!(state.get_data(&0), 1);
}

#[test]
fn get_inst_reads_null_past_the_end() {
    let mut state = State::from_str("+-");
    assert_eq!(state.get_inst(&0), Inst::IncData);
    assert_eq!(state.get_inst(&1), Inst::DecData);
    assert_eq!(state.get_inst(&2), Inst::Null);
    assert_eq!(state.get_inst(&usize::MAX), Inst::Null);
}

#[test]
fn get_inst_mut_grows_the_tape_with_nulls() {
    let mut state = State::from_str("+");
    {
        let inst = state.get_inst_mut(&3);
        assert_eq!(*inst, Inst::Null);
        *inst = Inst::Out;
    }
    assert_eq!(state.get_inst(&0), Inst::IncData);
    assert_eq!(state.get_inst(&1), Inst::Null);
    assert_eq!(state.get_inst(&2), Inst::Null);
    assert_eq!(state.get_inst(&3), Inst::Out);
    assert_eq!(state.get_inst(&4), Inst::Null);
    let report = state.run(&vec![], NO_LIMIT);
    assert_eq!(report.output, vec![1]);
    assert_eq!(state.inst_ptr(), 4);
}

#[test]
fn get_inst_mut_at_the_end_of_the_tape() {
    let mut state = State::from_str("+");
    {
        let inst = state.get_inst_mut(&1);
        assert_eq!(*inst, Inst::Null);
        *inst = Inst::IncData;
    }
    {
        let inst = state.get_inst_mut(&0);
        assert_eq!(*inst, Inst::IncData);
        *inst = Inst::DecData;
    }
    assert_eq!(state.get_inst(&2), Inst::Null);
    state.run(&vec![], NO_LIMIT);
    assert_eq!(state.get_data(&0), 0);
    assert_eq!(state.inst_ptr(), 2);
}

#[test]
fn hello_world() {
    let mut state = State::from_str(HELLO);
    let report = state.run(&vec![], NO_LIMIT);
    assert_eq!(report.output, b"Hello World!\n".to_vec());
    assert_eq!(report.fault, None);
    assert_eq!(report.consumed, 0);
    assert!(state.terminated());
    assert_eq!(state.depth(), 0);
}

#[test]
fn hello_world_step_by_step() {
    let mut state = State::from_str(HELLO);
    let mut written = Vec::new();
    while !state.terminated() {
        assert!(!state.wants_input());
        match state.step(None) {
            Ok(Some(byte)) => written.push(byte),
            Ok(None) => {}
            Err(fault) => panic!("fault: {:?}", fault),
        }
    }
    assert_eq!(String::from_utf8(written).unwrap(), "Hello World!\n");
}

#[test]
fn the_default_machine_has_an_empty_program() {
    let mut state = State::default();
    assert_eq!(state.get_inst(&0), Inst::Null);
    assert!(!state.terminated());
    assert_eq!(state.step(None), Ok(None));
    assert!(state.terminated());
    assert_eq!(state.inst_ptr(), 0);
    assert_eq!(state.get_data(&0), 0);
}
