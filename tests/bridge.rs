use tui_game::bridge::{
    place_runs, align_text, classify_run, coord_to_terminal, exit_sentinel_text, finish_run, sleep_plan,
    take_terminal_dirty_from_lua, text_width, DirtyFlag, LaunchMode, RunOutcome,
};
use tui_game::markup::styled_runs;
use tui_game::keys::{escape_step, key_token, EscapeStage, EscapeStep, KeyCode};
use tui_game::rng::Rng;
use tui_game::store::{clear_active_game_save, game_slot_key, latest_saved_game_id, SaveStore};
use tui_game::value::{from_json, to_json, BridgeError, JsonNode, ScriptKey, ScriptValue};

fn s(v: &str) -> ScriptValue {
    ScriptValue::Str(v.to_string())
}

#[test]
fn sequence_table_becomes_array_and_back() {
    let t = ScriptValue::Table(vec![
        (ScriptKey::Int(2), s("b")),
        (ScriptKey::Int(1), s("a")),
        (ScriptKey::Int(3), ScriptValue::Integer(7)),
    ]);
    let j = to_json(&t).unwrap();
    match &j {
        JsonNode::Array(items) => {
            assert_eq!(items.len(), 3);
            assert!(matches!(&items[0], JsonNode::Str(x) if x == "a"));
            assert!(matches!(&items[1], JsonNode::Str(x) if x == "b"));
            assert!(matches!(&items[2], JsonNode::Int(7)));
        }
        other => panic!("expected an array, got {:?}", other),
    }
    match from_json(&j) {
        ScriptValue::Table(es) => {
            assert_eq!(es.len(), 3);
            assert!(matches!(&es[0], (ScriptKey::Int(1), ScriptValue::Str(x)) if x == "a"));
            assert!(matches!(&es[1], (ScriptKey::Int(2), ScriptValue::Str(x)) if x == "b"));
            assert!(matches!(&es[2], (ScriptKey::Int(3), ScriptValue::Integer(7))));
        }
        other => panic!("expected a table, got {:?}", other),
    }
}

#[test]
fn gaps_are_filled_with_null() {
    let t = ScriptValue::Table(vec![(ScriptKey::Int(3), ScriptValue::Boolean(true))]);
    match to_json(&t).unwrap() {
        JsonNode::Array(items) => {
            assert_eq!(items.len(), 3);
            assert!(matches!(items[0], JsonNode::Null));
            assert!(matches!(items[1], JsonNode::Null));
            assert!(matches!(items[2], JsonNode::Bool(true)));
        }
        other => panic!("expected an array, got {:?}", other),
    }
}

#[test]
fn string_key_makes_an_object() {
    let t = ScriptValue::Table(vec![
        (ScriptKey::Int(1), s("a")),
        (ScriptKey::Str("name".to_string()), s("x")),
        (ScriptKey::Int(-2), ScriptValue::Nil),
    ]);
    match to_json(&t).unwrap() {
        JsonNode::Object(m) => {
            let keys: Vec<&str> = m.iter().map(|(k, _)| k.as_str()).collect();
            assert_eq!(keys, vec!["name", "Integer(-2)", "1"]);
        }
        other => panic!("expected an object, got {:?}", other),
    }
}

#[test]
fn empty_table_is_an_object() {
    assert!(matches!(to_json(&ScriptValue::Table(vec![])).unwrap(), JsonNode::Object(m) if m.is_empty()));
}

#[test]
fn non_finite_float_is_an_error() {
    let nan = ScriptValue::Float(f64::NAN.to_bits());
    assert_eq!(to_json(&nan).err(), Some(BridgeError::NonFiniteNumber));
    let nested = ScriptValue::Table(vec![(ScriptKey::Int(1), ScriptValue::Float(f64::INFINITY.to_bits()))]);
    assert!(to_json(&nested).is_err());
    assert!(matches!(to_json(&ScriptValue::Float(1.5f64.to_bits())), Ok(JsonNode::Float(b)) if b == 1.5f64.to_bits()));
}

#[test]
fn nulls_leave_no_entries() {
    let j = JsonNode::Object(vec![
        ("a".to_string(), JsonNode::Null),
        ("b".to_string(), JsonNode::Int(2)),
    ]);
    match from_json(&j) {
        ScriptValue::Table(es) => {
            assert_eq!(es.len(), 1);
            assert!(matches!(&es[0], (ScriptKey::Str(k), ScriptValue::Integer(2)) if k == "b"));
        }
        other => panic!("expected a table, got {:?}", other),
    }
}

#[test]
fn saving_a_slot_removes_the_others() {
    let mut store = SaveStore::new();
    store.save_value("volume", &ScriptValue::Integer(3)).unwrap();
    store.save_slot("A", &ScriptValue::Integer(1)).unwrap();
    store.save_slot("B", &ScriptValue::Integer(2)).unwrap();
    assert_eq!(latest_saved_game_id(&store), Some("b".to_string()));
    assert!(matches!(store.load_slot("A"), ScriptValue::Nil));
    assert!(matches!(store.load_slot(" b "), ScriptValue::Integer(2)));
    assert!(matches!(store.get("game:b"), Some(JsonNode::Int(2))));
    assert!(store.get("game:a").is_none());
    assert!(matches!(store.load_value("volume"), ScriptValue::Integer(3)));
    assert_eq!(game_slot_key("  MiNe "), "game:mine");
}

#[test]
fn clearing_the_slot_keeps_other_keys() {
    let mut store = SaveStore::new();
    store.save_value("best", &ScriptValue::Integer(9)).unwrap();
    store.save_slot("chess", &ScriptValue::Boolean(true)).unwrap();
    clear_active_game_save(&mut store);
    assert_eq!(latest_saved_game_id(&store), None);
    assert!(matches!(store.load_slot("chess"), ScriptValue::Nil));
    assert!(matches!(store.load_value("best"), ScriptValue::Integer(9)));
}

#[test]
fn latest_falls_back_to_a_slot_key() {
    let store = SaveStore::from_members(&vec![("game:snake".to_string(), JsonNode::Int(1))]);
    assert_eq!(latest_saved_game_id(&store), Some("snake".to_string()));
}

#[test]
fn failed_save_changes_nothing() {
    let mut store = SaveStore::new();
    store.save_slot("a", &ScriptValue::Integer(1)).unwrap();
    let bad = ScriptValue::Float(f64::NAN.to_bits());
    assert!(store.save_slot("b", &bad).is_err());
    assert_eq!(latest_saved_game_id(&store), Some("a".to_string()));
}

#[test]
fn random_bounds() {
    let mut rng = Rng::from_clock(Some(12345));
    assert_eq!(rng.random(0), 0);
    assert_eq!(rng.random(-5), 0);
    let mut seen = [false; 10];
    for _ in 0..2000 {
        let v = rng.random(10);
        assert!((0..10).contains(&v));
        seen[v as usize] = true;
    }
    assert!(seen.iter().all(|x| *x));
}

#[test]
fn random_sequence_is_xorshift() {
    let mut rng = Rng::from_clock(Some(1));
    assert_eq!(rng.next_u64(), 1082269761);
    let mut zero_seed = Rng::from_clock(Some(0));
    assert_ne!(zero_seed.next_u64(), 0);
}

#[test]
fn escape_bracket_a_is_up() {
    let s1 = escape_step(EscapeStage::Prefix, Some(KeyCode::Char('[')));
    assert_eq!(s1, EscapeStep::Next(EscapeStage::Letter));
    assert_eq!(escape_step(EscapeStage::Letter, Some(KeyCode::Char('A'))), EscapeStep::Resolved(KeyCode::Up));
    assert_eq!(escape_step(EscapeStage::Letter, Some(KeyCode::Char('d'))), EscapeStep::Resolved(KeyCode::Left));
    assert_eq!(escape_step(EscapeStage::Prefix, None), EscapeStep::Resolved(KeyCode::Esc));
    assert_eq!(escape_step(EscapeStage::Prefix, Some(KeyCode::Char('x'))), EscapeStep::Resolved(KeyCode::Esc));
    assert_eq!(escape_step(EscapeStage::Letter, None), EscapeStep::Resolved(KeyCode::Esc));
}

#[test]
fn key_tokens() {
    assert_eq!(key_token(KeyCode::Char(' ')), "space");
    assert_eq!(key_token(KeyCode::Char('Q')), "q");
    assert_eq!(key_token(KeyCode::BackTab), "tab");
    assert_eq!(key_token(KeyCode::Esc), "esc");
    assert_eq!(key_token(KeyCode::Other), "");
}

#[test]
fn exit_is_success_and_errors_keep_their_message() {
    let mut flag = DirtyFlag::new();
    let msg = format!("runtime error: {} at line 3", exit_sentinel_text());
    let outcome = classify_run(Some(msg));
    assert!(matches!(outcome, RunOutcome::ExitedEarly));
    assert_eq!(finish_run(outcome, &mut flag), Ok(()));
    assert!(take_terminal_dirty_from_lua(&mut flag));
    assert!(!take_terminal_dirty_from_lua(&mut flag));

    let outcome = classify_run(Some("boom".to_string()));
    assert_eq!(finish_run(outcome, &mut flag), Err("boom".to_string()));
    assert!(take_terminal_dirty_from_lua(&mut flag));

    assert_eq!(finish_run(classify_run(None), &mut flag), Ok(()));
}

#[test]
fn launch_mode_and_layout_helpers() {
    assert_eq!(LaunchMode::New.as_str(), "new");
    assert_eq!(LaunchMode::Continue.as_str(), "continue");
    assert_eq!(coord_to_terminal(-4), 0);
    assert_eq!(coord_to_terminal(1), 0);
    assert_eq!(coord_to_terminal(10), 9);
    assert_eq!(coord_to_terminal(i64::MAX), u16::MAX);
    assert_eq!(sleep_plan(-1), (0, false));
    assert_eq!(sleep_plan(250), (250, true));
    assert_eq!(text_width("ab"), 2);
    assert_eq!(text_width("\u{4f60}\u{597d}"), 4);
    assert_eq!(align_text("ab", Some(6), Some("center")), "  ab  ");
    assert_eq!(align_text("ab", Some(5), Some("right")), "   ab");
    assert_eq!(align_text("ab", Some(5), None), "ab");
    assert_eq!(align_text("abcdef", Some(3), Some("right")), "abcdef");
}

#[test]
fn runs_are_placed_by_display_width_and_lines() {
    let runs = styled_runs("f%{tc:red>2}abcd\\nxy", None, None);
    let cells = place_runs(3, 2, &runs);
    assert_eq!(runs.len(), 4);
    assert_eq!(cells, vec![(2, 1), (4, 1), (6, 1), (2, 2)]);
    let cells = place_runs(-5, 0, &runs);
    assert_eq!(cells[0], (0, 0));
}

#[test]
fn placement_follows_given_widths() {
    let runs = styled_runs("f%{tc:red>1}ab\\nc", None, None);
    assert_eq!(runs.len(), 4);
    let cells = tui_game::bridge::place_runs_with_widths(1, 1, &runs, &vec![5, 7, 0, 1]);
    assert_eq!(cells, vec![(0, 0), (5, 0), (12, 0), (0, 1)]);
}

#[test]
fn nested_tables_round_trip() {
    let inner = ScriptValue::Table(vec![
        (ScriptKey::Str("hp".to_string()), ScriptValue::Integer(3)),
        (ScriptKey::Str("name".to_string()), s("orc")),
    ]);
    let t = ScriptValue::Table(vec![
        (ScriptKey::Int(1), inner),
        (ScriptKey::Int(2), ScriptValue::Float(2.5f64.to_bits())),
    ]);
    let back = from_json(&to_json(&t).unwrap());
    match back {
        ScriptValue::Table(es) => {
            assert_eq!(es.len(), 2);
            match &es[0] {
                (ScriptKey::Int(1), ScriptValue::Table(inner)) => {
                    assert!(matches!(&inner[0], (ScriptKey::Str(k), ScriptValue::Integer(3)) if k == "hp"));
                    assert!(matches!(&inner[1], (ScriptKey::Str(k), ScriptValue::Str(v)) if k == "name" && v == "orc"));
                }
                other => panic!("unexpected entry {:?}", other),
            }
            assert!(matches!(&es[1], (ScriptKey::Int(2), ScriptValue::Float(b)) if *b == 2.5f64.to_bits()));
        }
        other => panic!("expected a table, got {:?}", other),
    }
}
