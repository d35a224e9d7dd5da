use pixel_fluter::{handle_key, update, KeyCode, Message, Model, PortStats, RunningState};

fn model_with(rows: usize, selected: Option<usize>) -> Model {
    let mut model = Model::default();
    model.stats = vec![(PortStats::default(), PortStats::default()); rows];
    model.selected = selected;
    model
}

#[test]
fn quit_stops_the_dashboard() {
    let mut model = model_with(2, Some(1));
    assert_eq!(model.running_state, RunningState::Running);
    assert!(update(&mut model, Message::Quit).is_none());
    assert_eq!(model.running_state, RunningState::Done);
    assert_eq!(model.selected, Some(1));
}

#[test]
fn moving_up_wraps_from_the_first_row() {
    let mut model = model_with(3, Some(0));
    update(&mut model, Message::PortListUp { steps: 1 });
    assert_eq!(model.selected, Some(2));
    update(&mut model, Message::PortListUp { steps: 1 });
    assert_eq!(model.selected, Some(1));
    update(&mut model, Message::PortListUp { steps: 5 });
    assert_eq!(model.selected, Some(0));
}

#[test]
fn moving_down_wraps_from_the_last_row() {
    let mut model = model_with(3, Some(1));
    update(&mut model, Message::PortListDown { steps: 1 });
    assert_eq!(model.selected, Some(2));
    update(&mut model, Message::PortListDown { steps: 1 });
    assert_eq!(model.selected, Some(0));
    update(&mut model, Message::PortListDown { steps: 7 });
    assert_eq!(model.selected, Some(2));
}

#[test]
fn moving_without_selection_selects_the_first_row() {
    let mut model = model_with(3, None);
    update(&mut model, Message::PortListDown { steps: 1 });
    assert_eq!(model.selected, Some(0));
    let mut model = model_with(0, None);
    update(&mut model, Message::PortListUp { steps: 1 });
    assert_eq!(model.selected, Some(0));
    update(&mut model, Message::PortListUp { steps: 1 });
    assert_eq!(model.selected, Some(0));
}

#[test]
fn stats_update_replaces_the_rows() {
    let mut model = model_with(1, Some(0));
    let mut p = PortStats::default();
    p.ipackets = 12;
    update(&mut model, Message::StatsUpdate { stats: vec![(p, p), (p, p)] });
    assert_eq!(model.stats.len(), 2);
    assert_eq!(model.stats[1].0.ipackets, 12);
    assert_eq!(model.selected, Some(0));
}

#[test]
fn keys_map_to_messages() {
    assert!(matches!(handle_key(KeyCode::Char('c'), true), Some(Message::Quit)));
    assert!(handle_key(KeyCode::Char('c'), false).is_none());
    assert!(matches!(handle_key(KeyCode::Char('k'), false), Some(Message::PortListUp { steps: 1 })));
    assert!(matches!(handle_key(KeyCode::Up, true), Some(Message::PortListUp { steps: 1 })));
    assert!(matches!(handle_key(KeyCode::Char('j'), false), Some(Message::PortListDown { steps: 1 })));
    assert!(matches!(handle_key(KeyCode::Down, false), Some(Message::PortListDown { steps: 1 })));
    assert!(handle_key(KeyCode::Other, false).is_none());
    assert!(handle_key(KeyCode::Char('q'), false).is_none());
}
