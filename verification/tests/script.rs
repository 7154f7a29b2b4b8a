use ised::error::SessionError;
use ised::runner::cycles_of;
use ised::script::{drop_exit_codes, Action, Parsed};
use sed_rs::command::{Address, AddressRange, Command};

fn always(action: Action) -> Parsed {
    Parsed { address: AddressRange::None, action }
}

fn shown(commands: &[Parsed]) -> String {
    format!("{:?}", commands)
}

#[test]
fn exit_codes_are_dropped_at_any_depth() {
    let build = |one: Option<i32>, two: Option<i32>, three: Option<i32>| {
        vec![
            Parsed {
                address: AddressRange::Single { addr: Address::Line(3), negated: true },
                action: Action::Quit(one),
            },
            always(Action::ReadFile("q1".to_string())),
            always(Action::Group(vec![
                always(Action::Other(Command::Print)),
                always(Action::Group(vec![always(Action::Group(vec![])), always(Action::QuitSilently(two))])),
                always(Action::Execute(None)),
            ])),
            always(Action::QuitSilently(three)),
        ]
    };
    let kept = drop_exit_codes(build(Some(5), Some(-1), Some(0)));
    assert_eq!(shown(&kept), shown(&build(None, None, Some(0))));
    // what has none stays as it is
    let kept = drop_exit_codes(build(None, Some(0), None));
    assert_eq!(shown(&kept), shown(&build(None, Some(0), None)));
    assert!(drop_exit_codes(vec![]).is_empty());
}

#[test]
fn a_reply_is_an_error_or_cycles() {
    match cycles_of(Err(sed_rs::Error::Parse("no script".to_string()))) {
        Err(SessionError::ParseScript(sed_rs::Error::Parse(text))) => assert_eq!(text, "no script"),
        other => panic!("{:?}", other),
    }
    match cycles_of(Ok(Err(sed_rs::Error::Parse("no run".to_string())))) {
        Err(SessionError::RunScript(sed_rs::Error::Parse(text))) => assert_eq!(text, "no run"),
        other => panic!("{:?}", other),
    }
    let cycles = cycles_of(Ok(Ok("\u{1}P\u{1}a\u{2}b\n7\n\u{1}H\u{1}c\n".to_string()))).unwrap();
    assert_eq!(cycles.len(), 1);
    assert_eq!(cycles[0].pattern_space, "a\nb");
    assert!(cycles[0].printed);
    assert_eq!(cycles[0].end_line, 7);
    assert_eq!(cycles[0].hold_space, "c");
    assert!(cycles_of(Ok(Ok(String::new()))).unwrap().is_empty());
}
