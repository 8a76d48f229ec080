use browseros_agent::tools::act::{
    act_commands, definition, diff_request, plan_act, scroll_direction, ActArgs, ActDirection,
    ActKind, FillField, InputCommand, MouseButton, ScrollDirection,
};

fn args(kind: ActKind) -> ActArgs<f64> {
    ActArgs {
        page: 1,
        kind,
        element_ref: None,
        text: None,
        value: None,
        fields: None,
        key: None,
        direction: None,
        amount: None,
        x: None,
        y: None,
        target_ref: None,
        start_x: None,
        start_y: None,
        end_x: None,
        end_y: None,
        button: None,
        click_count: None,
        clear: None,
        diff: None,
        max_chars: None,
    }
}

fn refused(a: ActArgs<f64>) -> String {
    match act_commands(a) {
        Err(e) => e,
        Ok(_) => panic!("expected a refusal"),
    }
}

#[test]
fn kinds_have_wire_names() {
    assert_eq!(ActKind::Click.as_str(), "click");
    assert_eq!(ActKind::ClickAt.as_str(), "click_at");
    assert_eq!(ActKind::DragAt.as_str(), "drag_at");
    assert_eq!(ActKind::DialogDismiss.as_str(), "dialog_dismiss");
    assert!(ActKind::DialogAccept.is_dialog());
    assert!(!ActKind::Press.is_dialog());
}

#[test]
fn missing_arguments_are_refused_with_their_message() {
    assert_eq!(refused(args(ActKind::Click)), "act click: ref is required.");
    assert_eq!(refused(args(ActKind::Hover)), "act hover: ref is required.");
    assert_eq!(refused(args(ActKind::Uncheck)), "act uncheck: ref is required.");
    assert_eq!(refused(args(ActKind::ClickAt)), "act click_at: x and y are required.");
    assert_eq!(refused(args(ActKind::HoverAt)), "act hover_at: x and y are required.");
    assert_eq!(refused(args(ActKind::TypeAt)), "act type_at: x and y are required.");
    assert_eq!(refused(args(ActKind::Type)), "act type: text is required.");
    assert_eq!(refused(args(ActKind::Press)), "act press: key is required.");
    assert_eq!(refused(args(ActKind::Fill)), "act fill: provide fields[] or both ref and value.");
    assert_eq!(refused(args(ActKind::Select)), "act select: ref and value are required.");
    assert_eq!(refused(args(ActKind::Drag)), "act drag: ref and targetRef are required.");
    assert_eq!(
        refused(args(ActKind::DragAt)),
        "act drag_at: startX, startY, endX, and endY are required."
    );
    let mut at = args(ActKind::TypeAt);
    at.x = Some(1.0);
    at.y = Some(2.0);
    assert_eq!(refused(at), "act type_at: text is required.");
}

#[test]
fn fields_fill_in_order_with_clear() {
    let mut a = args(ActKind::Fill);
    a.fields = Some(vec![
        FillField { element_ref: "e1".to_string(), value: "Ada".to_string() },
        FillField { element_ref: "e2".to_string(), value: "Lovelace".to_string() },
    ]);
    a.clear = Some(true);
    let cmds = act_commands(a).unwrap_or_default();
    assert_eq!(cmds.len(), 2);
    match (&cmds[0], &cmds[1]) {
        (
            InputCommand::Fill { element_ref: r1, value: v1, clear: c1 },
            InputCommand::Fill { element_ref: r2, value: v2, clear: c2 },
        ) => {
            assert_eq!((r1.as_str(), v1.as_str(), *c1), ("e1", "Ada", true));
            assert_eq!((r2.as_str(), v2.as_str(), *c2), ("e2", "Lovelace", true));
        }
        _ => panic!("expected two fills"),
    }
}

#[test]
fn click_carries_button_and_count() {
    let mut a = args(ActKind::Click);
    a.element_ref = Some("e9".to_string());
    a.button = Some(MouseButton::Right);
    a.click_count = Some(2);
    let cmds = act_commands(a).unwrap_or_default();
    match cmds.as_slice() {
        [InputCommand::Click { element_ref, options }] => {
            assert_eq!(element_ref, "e9");
            assert_eq!(options.button, Some(MouseButton::Right));
            assert_eq!(options.click_count, Some(2));
        }
        _ => panic!("expected one click"),
    }
}

#[test]
fn scroll_defaults_down_and_keeps_amount() {
    assert_eq!(scroll_direction(None), ScrollDirection::Down);
    assert_eq!(scroll_direction(Some(ActDirection::Left)), ScrollDirection::Left);
    let mut a = args(ActKind::Scroll);
    a.amount = Some(5.0);
    let cmds = act_commands(a).unwrap_or_default();
    match cmds.as_slice() {
        [InputCommand::Scroll { direction, amount, element_ref }] => {
            assert_eq!(*direction, ScrollDirection::Down);
            assert_eq!(*amount, Some(5.0));
            assert!(element_ref.is_none());
        }
        _ => panic!("expected one scroll"),
    }
}

#[test]
fn dialogs_answer_without_a_pending_check() {
    let mut a = args(ActKind::DialogAccept);
    a.text = Some("BrowserOS".to_string());
    let plan = plan_act(a);
    assert!(!plan.checks_pending_dialog);
    assert!(plan.clears_dialog);
    assert_eq!(plan.reply, "ok (dialog_accept)");
    match plan.steps {
        Ok(cmds) => match cmds.as_slice() {
            [InputCommand::HandleDialog { accept, prompt_text }] => {
                assert!(*accept);
                assert_eq!(prompt_text.as_deref(), Some("BrowserOS"));
            }
            _ => panic!("expected one dialog answer"),
        },
        Err(_) => panic!("expected commands"),
    }
    let dismiss = plan_act(args(ActKind::DialogDismiss));
    match dismiss.steps {
        Ok(cmds) => assert!(matches!(
            cmds.as_slice(),
            [InputCommand::HandleDialog { accept: false, prompt_text: None }]
        )),
        Err(_) => panic!("expected commands"),
    }
}

#[test]
fn other_kinds_check_for_a_pending_dialog_first() {
    let mut a = args(ActKind::Press);
    a.key = Some("Enter".to_string());
    let plan = plan_act(a);
    assert!(plan.checks_pending_dialog);
    assert!(!plan.clears_dialog);
    assert_eq!(plan.reply, "ok (press)");
}

#[test]
fn diff_modes() {
    assert_eq!(diff_request(&None), Some(true));
    assert_eq!(diff_request(&Some("full".to_string())), Some(true));
    assert_eq!(diff_request(&Some("Summary".to_string())), Some(false));
    assert_eq!(diff_request(&Some("NONE".to_string())), None);
    assert_eq!(diff_request(&Some("other".to_string())), Some(true));
}

#[test]
fn act_is_announced_with_page_dispatch() {
    let d = definition();
    assert_eq!(d.name, "act");
    assert!(d.metadata.accepts_page_arg);
    assert!(d.description.starts_with("Act on the page using refs from the last snapshot."));
}
