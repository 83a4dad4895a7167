use pixel_pal::action::{
    is_whitespace, parse_commands, Action, ActionDirection, ActionKind, StepTarget, WALK_LIMIT,
};

fn act(kind: ActionKind, direction: ActionDirection) -> Action {
    Action { kind, direction }
}

fn times(count: usize, action: Action) -> Option<Vec<Action>> {
    Some(vec![action; count])
}

fn named<T: Copy>(word: &str, names: &[(&str, T)]) -> Option<T> {
    names.iter().find(|(name, _)| word.eq_ignore_ascii_case(name)).map(|(_, value)| *value)
}

fn by_the_book(commands: &str) -> Option<Vec<Action>> {
    let kinds = [("Stand", ActionKind::Stand), ("Walk", ActionKind::Walk), ("Run", ActionKind::Run)];
    let directions = [
        ("Up", ActionDirection::Up),
        ("Down", ActionDirection::Down),
        ("Left", ActionDirection::Left),
        ("Right", ActionDirection::Right),
    ];
    let mut actions = Vec::new();
    for line in commands.to_uppercase().lines() {
        let parts: Vec<&str> = line.split_whitespace().collect();
        if parts.len() < 2 || parts.len() > 3 {
            continue;
        }
        let (Some(mut kind), Some(direction)) = (named(parts[0], &kinds), named(parts[1], &directions))
        else {
            continue;
        };
        let count = if parts.len() == 3 {
            match parts[2].parse::<usize>() {
                Ok(count) => count,
                Err(_) => continue,
            }
        } else {
            1
        };
        if count > 5 && kind == ActionKind::Walk {
            kind = ActionKind::Run;
        }
        for _ in 0..count {
            actions.push(act(kind, direction));
        }
    }
    if actions.is_empty() {
        None
    } else {
        Some(actions)
    }
}

#[test]
fn command_names_a_kind_a_direction_and_a_count() {
    assert_eq!(
        Action::from_command_string("walk up 3"),
        times(3, act(ActionKind::Walk, ActionDirection::Up))
    );
    assert_eq!(
        Action::from_command_string("run down"),
        times(1, act(ActionKind::Run, ActionDirection::Down))
    );
    assert_eq!(
        Action::from_command_string("stand right 2"),
        times(2, act(ActionKind::Stand, ActionDirection::Right))
    );
    assert_eq!(
        Action::from_command_string("Walk Left"),
        times(1, act(ActionKind::Walk, ActionDirection::Left))
    );
}

#[test]
fn long_walk_becomes_a_run() {
    assert_eq!(WALK_LIMIT, 5);
    assert_eq!(
        Action::from_command_string("walk left 5"),
        times(5, act(ActionKind::Walk, ActionDirection::Left))
    );
    assert_eq!(
        Action::from_command_string("walk left 6"),
        times(6, act(ActionKind::Run, ActionDirection::Left))
    );
    assert_eq!(
        Action::from_command_string("stand left 9"),
        times(9, act(ActionKind::Stand, ActionDirection::Left))
    );
    assert_eq!(
        Action::from_command_string("run left 9"),
        times(9, act(ActionKind::Run, ActionDirection::Left))
    );
}

#[test]
fn each_line_is_a_command_of_its_own() {
    let asked = Action::from_command_string("walk up\nrun left 2\r\nsit down\n\nSTAND DOWN\n").unwrap();
    assert_eq!(
        asked,
        vec![
            act(ActionKind::Walk, ActionDirection::Up),
            act(ActionKind::Run, ActionDirection::Left),
            act(ActionKind::Run, ActionDirection::Left),
            act(ActionKind::Stand, ActionDirection::Down),
        ]
    );
}

#[test]
fn text_without_a_command_asks_for_nothing() {
    for text in [
        "",
        "\n",
        "   ",
        "walk",
        "walk up 2 3",
        "walk north",
        "jump up",
        "walk up two",
        "walk up -1",
        "walk up 1.5",
        "walk up +",
        "walk up 0",
        "walkup",
        "up walk",
        "OK",
        "walk up 99999999999999999999999999999",
        "walk up 18446744073709551616",
        "walk\nup",
        "walk up\u{2028}run left",
    ] {
        assert_eq!(Action::from_command_string(text), None);
    }
}

#[test]
fn words_are_separated_by_any_white_space() {
    let one = times(1, act(ActionKind::Walk, ActionDirection::Up));
    for text in [
        "walk up",
        "  walk   up  ",
        "\twalk\tup\t",
        "walk\u{3000}up",
        "walk\u{a0}up\r",
        "walk\u{b}up\u{c}+1",
        "walk up 001",
    ] {
        assert_eq!(Action::from_command_string(text), one);
    }
}

#[test]
fn letters_count_in_any_case() {
    assert_eq!(
        Action::from_command_string("wAlK dOwN"),
        times(1, act(ActionKind::Walk, ActionDirection::Down))
    );
    assert_eq!(
        Action::from_command_string("walk r\u{131}ght"),
        times(1, act(ActionKind::Walk, ActionDirection::Right))
    );
    assert_eq!(
        Action::from_command_string("\u{fb06}and up"),
        times(1, act(ActionKind::Stand, ActionDirection::Up))
    );
}

#[test]
fn text_in_lower_case_is_read_as_it_stands() {
    let lower: Vec<char> = "walk up 2\nRUN left".chars().collect();
    assert_eq!(
        parse_commands(&lower),
        vec![
            act(ActionKind::Walk, ActionDirection::Up),
            act(ActionKind::Walk, ActionDirection::Up),
            act(ActionKind::Run, ActionDirection::Left),
        ]
    );
    let dotless: Vec<char> = "walk r\u{131}ght".chars().collect();
    assert_eq!(parse_commands(&dotless), vec![]);
    assert_eq!(parse_commands(&vec![]), vec![]);
}

#[test]
fn replies_are_read_as_the_standard_library_splits_them() {
    let pieces = [
        "walk", "RUN", "Stand", "up", "DOWN", "left", "Right", " ", "  ", "\t", "\n", "\r\n", "\r",
        "0", "1", "3", "6", "+2", "007", "-1", "x", "walks", "\u{2028}", "\u{85}", "\u{3000}", "ß",
        "\u{131}", "rıght",
    ];
    let mut state: u64 = 0x2545f4914f6cdd1d;
    for _ in 0..20_000 {
        let mut text = String::new();
        for _ in 0..8 {
            state ^= state << 13;
            state ^= state >> 7;
            state ^= state << 17;
            text.push_str(pieces[(state % pieces.len() as u64) as usize]);
        }
        assert_eq!(Action::from_command_string(&text), by_the_book(&text), "{:?}", text);
    }
}

#[test]
fn white_space_is_what_unicode_says() {
    for code in 0..=0x10ffffu32 {
        if let Some(c) = char::from_u32(code) {
            assert_eq!(is_whitespace(c), c.is_whitespace(), "{:x}", code);
        }
    }
}

#[test]
fn action_steps_one_tile_in_its_direction() {
    assert_eq!(act(ActionKind::Walk, ActionDirection::Up).tile_step(), (0, 1));
    assert_eq!(act(ActionKind::Walk, ActionDirection::Down).tile_step(), (0, -1));
    assert_eq!(act(ActionKind::Run, ActionDirection::Left).tile_step(), (-1, 0));
    assert_eq!(act(ActionKind::Run, ActionDirection::Right).tile_step(), (1, 0));
    assert_eq!(act(ActionKind::Stand, ActionDirection::Right).tile_step(), (0, 0));
    assert_eq!(Action::new(ActionKind::Stand, ActionDirection::Up), act(ActionKind::Stand, ActionDirection::Up));
}

#[test]
fn character_steps_only_onto_its_own_level() {
    let walk = act(ActionKind::Walk, ActionDirection::Up);
    let run = act(ActionKind::Run, ActionDirection::Left);
    let stand = act(ActionKind::Stand, ActionDirection::Down);
    assert!(walk.is_possible(3, StepTarget::Tile(3)));
    assert!(!walk.is_possible(3, StepTarget::Tile(4)));
    assert!(!run.is_possible(3, StepTarget::Tile(2)));
    assert!(run.is_possible(0, StepTarget::Empty));
    assert!(!walk.is_possible(3, StepTarget::Unloaded));
    assert!(stand.is_possible(3, StepTarget::Unloaded));
    assert!(stand.is_possible(3, StepTarget::Tile(9)));
}
