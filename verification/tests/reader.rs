use waveview::vcd::{
    read_clocked_vcd, replay, Document, FormatError, HeaderItem, Logic, Record, Scope, ScopeKind,
    ScopedVar, Signal, Var, VarKind,
};

fn history(signal: &Signal) -> Vec<(u64, Vec<Logic>)> {
    let mut iter = signal.range(0..u64::MAX).into_iter();
    let mut out = Vec::new();
    while let Some((time, chunk)) = iter.next() {
        out.push((time, chunk.to_vec()));
    }
    out
}

fn read(text: &str) -> (Vec<(ScopedVar, Signal)>, u64) {
    read_clocked_vcd(text.as_bytes()).expect("the trace is well formed")
}

const HEADER: &str = "$scope module top $end
$var wire 1 ! a $end
$var reg 4 \" b $end
$upscope $end
$enddefinitions $end
";

fn with_body(body: &str) -> String {
    format!("{HEADER}{body}")
}

#[test]
fn wire_and_register_under_one_scope() {
    let (tracks, final_time) = read(&with_body("#0\n1!\nb1010 \"\n#10\n0!\n#10\nb0011 \"\n#15\n"));
    assert_eq!(final_time, 15);
    assert_eq!(tracks.len(), 2);
    assert_eq!(tracks[0].0.full_name(), "top.a");
    assert_eq!(tracks[1].0.full_name(), "top.b");
    assert_eq!(
        tracks[0].0,
        ScopedVar {
            scopes: vec![(ScopeKind::Module, "top".to_string())],
            var: Var {
                var_type: VarKind::Wire,
                size: 1,
                code: "!".to_string(),
                reference: "a".to_string(),
            },
        }
    );
    assert_eq!(tracks[1].0.var.var_type, VarKind::Reg);
    assert_eq!(tracks[1].0.var.size, 4);
    assert_eq!(tracks[1].0.var.code, "\"");
    assert_eq!(tracks[0].1.width(), 1);
    assert_eq!(tracks[1].1.width(), 4);
    assert_eq!(
        history(&tracks[0].1),
        vec![(0, vec![Logic::V1]), (10, vec![Logic::V0]), (15, vec![Logic::V0])]
    );
    assert_eq!(
        history(&tracks[1].1),
        vec![
            (0, vec![Logic::V1, Logic::V0, Logic::V1, Logic::V0]),
            (10, vec![Logic::V0, Logic::V0, Logic::V1, Logic::V1]),
            (15, vec![Logic::V0, Logic::V0, Logic::V1, Logic::V1]),
        ]
    );
}

#[test]
fn change_of_an_undeclared_code_is_dropped() {
    let plain = read(&with_body("#0\n1!\nb1010 \"\n#10\n0!\n#15\n"));
    let noisy = read(&with_body("#0\n1!\n1#\nb1010 \"\nb11 zz\n#10\n0!\nx#\n#15\n"));
    assert_eq!(noisy.1, plain.1);
    assert_eq!(noisy.0.len(), plain.0.len());
    for (clean, mixed) in plain.0.iter().zip(noisy.0.iter()) {
        assert_eq!(clean.0, mixed.0);
        assert_eq!(history(&clean.1), history(&mixed.1));
    }
}

#[test]
fn empty_body_ends_at_time_zero() {
    let (tracks, final_time) = read(HEADER);
    assert_eq!(final_time, 0);
    assert_eq!(tracks.len(), 2);
    assert!(tracks[0].1.is_empty());
    assert!(tracks[1].1.is_empty());
}

#[test]
fn untouched_signal_stays_empty_after_the_end() {
    let (tracks, final_time) = read(&with_body("#3\n1!\n#8\n"));
    assert_eq!(final_time, 8);
    assert_eq!(history(&tracks[0].1), vec![(3, vec![Logic::V1]), (8, vec![Logic::V1])]);
    assert!(tracks[1].1.is_empty());
}

#[test]
fn undefined_and_high_impedance_values_are_kept() {
    let (tracks, _) = read(&with_body("#0\nx!\nbzx01 \"\n#1\nz!\n#2\nZ!\nbXZ \"\n#3\n"));
    assert_eq!(
        history(&tracks[0].1),
        vec![(0, vec![Logic::X]), (1, vec![Logic::Z]), (2, vec![Logic::Z]), (3, vec![Logic::Z])]
    );
    assert_eq!(
        history(&tracks[1].1),
        vec![
            (0, vec![Logic::Z, Logic::X, Logic::V0, Logic::V1]),
            (2, vec![Logic::X, Logic::Z, Logic::V0, Logic::V0]),
            (3, vec![Logic::X, Logic::Z, Logic::V0, Logic::V0]),
        ]
    );
}

#[test]
fn narrow_vector_change_is_padded() {
    let (tracks, _) = read(&with_body("#0\nb1 \"\n"));
    assert_eq!(history(&tracks[1].1), vec![(0, vec![Logic::V1, Logic::V0, Logic::V0, Logic::V0])]);
}

#[test]
fn wide_vector_change_refuses_the_trace() {
    let outcome = read_clocked_vcd(with_body("#0\n1!\n#4\nb10101 \"\n#9\n").as_bytes());
    assert_eq!(
        outcome.err(),
        Some(FormatError::Width { code: "\"".to_string(), declared: 4, supplied: 5 })
    );
}

#[test]
fn wide_vector_change_on_a_wire_refuses_the_trace() {
    let outcome = read_clocked_vcd(with_body("#0\nb10 !\n").as_bytes());
    assert_eq!(
        outcome.err(),
        Some(FormatError::Width { code: "!".to_string(), declared: 1, supplied: 2 })
    );
}

#[test]
fn scalar_change_of_a_vector_is_dropped() {
    let (tracks, final_time) = read(&with_body("#0\n1\"\nb0110 \"\n#2\n0\"\n#5\n"));
    assert_eq!(final_time, 5);
    assert_eq!(
        history(&tracks[1].1),
        vec![
            (0, vec![Logic::V0, Logic::V1, Logic::V1, Logic::V0]),
            (5, vec![Logic::V0, Logic::V1, Logic::V1, Logic::V0]),
        ]
    );
}

#[test]
fn string_and_real_changes_are_passed_over() {
    let (tracks, final_time) = read(&with_body("#0\nshello !\nr1.5 \"\n1!\n#7\n"));
    assert_eq!(final_time, 7);
    assert_eq!(history(&tracks[0].1), vec![(0, vec![Logic::V1]), (7, vec![Logic::V1])]);
    assert!(tracks[1].1.is_empty());
}

#[test]
fn initial_values_are_recorded_at_time_zero() {
    let (tracks, final_time) = read(&with_body("$dumpvars\n0!\nb0000 \"\n$end\n#5\n1!\n#6\n"));
    assert_eq!(final_time, 6);
    assert_eq!(
        history(&tracks[0].1),
        vec![(0, vec![Logic::V0]), (5, vec![Logic::V1]), (6, vec![Logic::V1])]
    );
    assert_eq!(history(&tracks[1].1), vec![(0, vec![Logic::V0; 4]), (6, vec![Logic::V0; 4])]);
}

#[test]
fn only_registers_and_wires_are_tracked() {
    let text = "$scope module top $end
$var integer 32 # count $end
$var wire 1 ! a $end
$var parameter 8 $ width $end
$var reg 2 % r $end
$var real 64 & volts $end
$upscope $end
$enddefinitions $end
#0
b101 #
1!
b11 %
#4
";
    let (tracks, final_time) = read(text);
    assert_eq!(final_time, 4);
    let names: Vec<String> = tracks.iter().map(|t| t.0.full_name()).collect();
    assert_eq!(names, vec!["top.a", "top.r"]);
    assert_eq!(history(&tracks[0].1), vec![(0, vec![Logic::V1]), (4, vec![Logic::V1])]);
    assert_eq!(
        history(&tracks[1].1),
        vec![(0, vec![Logic::V1, Logic::V1]), (4, vec![Logic::V1, Logic::V1])]
    );
}

#[test]
fn variables_come_in_declaration_order_through_nested_scopes() {
    let text = "$comment by hand $end
$timescale 1 ns $end
$var wire 1 ! clk $end
$scope module top $end
$var wire 1 \" a $end
$scope task t $end
$var reg 3 # b $end
$scope begin blk $end
$var wire 1 $ c $end
$upscope $end
$upscope $end
$scope function f $end
$var wire 1 % d $end
$upscope $end
$scope fork k $end
$var wire 1 & e $end
$upscope $end
$var wire 1 ' z $end
$upscope $end
$enddefinitions $end
";
    let (tracks, _) = read(text);
    let names: Vec<String> = tracks.iter().map(|t| t.0.full_name()).collect();
    assert_eq!(
        names,
        vec!["clk", "top.a", "top.t.b", "top.t.blk.c", "top.f.d", "top.k.e", "top.z"]
    );
    let kinds: Vec<ScopeKind> = tracks[3].0.scopes.iter().map(|s| s.0).collect();
    assert_eq!(kinds, vec![ScopeKind::Module, ScopeKind::Task, ScopeKind::Begin]);
    assert_eq!(tracks[4].0.scopes[1].0, ScopeKind::Function);
    assert_eq!(tracks[5].0.scopes[1].0, ScopeKind::Fork);
}

#[test]
fn shared_code_keeps_the_first_place_and_the_last_declaration() {
    let text = "$scope module top $end
$var wire 1 ! first $end
$var wire 1 \" other $end
$var reg 2 ! second $end
$upscope $end
$enddefinitions $end
#0
b11 !
1\"
#3
";
    let (tracks, _) = read(text);
    let names: Vec<String> = tracks.iter().map(|t| t.0.full_name()).collect();
    assert_eq!(names, vec!["top.second", "top.other"]);
    assert_eq!(tracks[0].1.width(), 2);
    assert_eq!(
        history(&tracks[0].1),
        vec![(0, vec![Logic::V1, Logic::V1]), (3, vec![Logic::V1, Logic::V1])]
    );
}

#[test]
fn timestamps_may_go_back_for_another_signal() {
    let (tracks, final_time) = read(&with_body("#10\n1!\n#5\nb1111 \"\n#12\n0!\n"));
    assert_eq!(final_time, 12);
    assert_eq!(history(&tracks[0].1), vec![(10, vec![Logic::V1]), (12, vec![Logic::V0])]);
    assert_eq!(history(&tracks[1].1), vec![(5, vec![Logic::V1; 4]), (12, vec![Logic::V1; 4])]);
}

#[test]
fn malformed_header_refuses_the_trace() {
    match read_clocked_vcd(b"AAAAA") {
        Err(FormatError::Header(message)) => assert!(message.contains("line 1"), "{message}"),
        other => panic!("unexpected outcome: {other:?}"),
    }
}

#[test]
fn header_with_an_unknown_variable_type_refuses_the_trace() {
    let text = "$scope module top $end\n$var gizmo 1 ! a $end\n$upscope $end\n$enddefinitions $end\n";
    match read_clocked_vcd(text.as_bytes()) {
        Err(FormatError::Header(message)) => assert!(message.contains("line 2"), "{message}"),
        other => panic!("unexpected outcome: {other:?}"),
    }
}

#[test]
fn header_that_ends_early_refuses_the_trace() {
    let outcome = read_clocked_vcd(b"$scope module top $end\n$var wire 1 ! a $end\n");
    assert!(matches!(outcome, Err(FormatError::Header(_))));
    assert!(matches!(read_clocked_vcd(b""), Err(FormatError::Header(_))));
}

#[test]
fn unreadable_record_refuses_the_trace() {
    match read_clocked_vcd(with_body("#0\n1!\n#1\n?\n0!\n").as_bytes()) {
        Err(FormatError::Record(message)) => assert!(message.contains("line 9"), "{message}"),
        other => panic!("unexpected outcome: {other:?}"),
    }
}

#[test]
fn first_refusal_in_the_body_wins() {
    let wide_first = read_clocked_vcd(with_body("#0\nb11111 \"\n?\n").as_bytes());
    assert!(matches!(wide_first, Err(FormatError::Width { .. })));
    let unreadable_first = read_clocked_vcd(with_body("#0\n?\nb11111 \"\n").as_bytes());
    assert!(matches!(unreadable_first, Err(FormatError::Record(_))));
}

fn two_signal_document(records: Vec<Result<Record, String>>) -> Document {
    let var = |kind, size, code: &str, reference: &str| {
        HeaderItem::Var(Var {
            var_type: kind,
            size,
            code: code.to_string(),
            reference: reference.to_string(),
        })
    };
    Document {
        items: vec![HeaderItem::Scope(Scope {
            scope_type: ScopeKind::Module,
            identifier: "top".to_string(),
            items: vec![var(VarKind::Wire, 1, "!", "a"), var(VarKind::Reg, 4, "\"", "b")],
        })],
        records,
    }
}

#[test]
fn replay_routes_records_to_their_signals() {
    let document = two_signal_document(vec![
        Ok(Record::Timestamp(0)),
        Ok(Record::ChangeScalar("!".to_string(), Logic::V1)),
        Ok(Record::ChangeVector("\"".to_string(), vec![Logic::V1, Logic::Z])),
        Ok(Record::Other),
        Ok(Record::ChangeString("!".to_string(), "text".to_string())),
        Ok(Record::Timestamp(10)),
        Ok(Record::ChangeScalar("?".to_string(), Logic::V0)),
        Ok(Record::ChangeScalar("!".to_string(), Logic::V0)),
        Ok(Record::Timestamp(15)),
    ]);
    let (tracks, final_time) = replay(document).expect("nothing refuses the document");
    assert_eq!(final_time, 15);
    assert_eq!(
        history(&tracks[0].1),
        vec![(0, vec![Logic::V1]), (10, vec![Logic::V0]), (15, vec![Logic::V0])]
    );
    assert_eq!(
        history(&tracks[1].1),
        vec![
            (0, vec![Logic::V1, Logic::Z, Logic::V0, Logic::V0]),
            (15, vec![Logic::V1, Logic::Z, Logic::V0, Logic::V0]),
        ]
    );
}

#[test]
fn replay_stops_at_the_first_unreadable_record() {
    let document = two_signal_document(vec![
        Ok(Record::Timestamp(0)),
        Err("first".to_string()),
        Ok(Record::ChangeVector("\"".to_string(), vec![Logic::V1; 5])),
        Err("second".to_string()),
    ]);
    assert_eq!(replay(document).err(), Some(FormatError::Record("first".to_string())));
}

#[test]
fn replay_refuses_a_wide_vector_change() {
    let document = two_signal_document(vec![
        Ok(Record::ChangeVector("\"".to_string(), vec![Logic::V1; 5])),
        Err("later".to_string()),
    ]);
    assert_eq!(
        replay(document).err(),
        Some(FormatError::Width { code: "\"".to_string(), declared: 4, supplied: 5 })
    );
}
