use roguelike::components::{Caliber, EntityId, ItemKind};
use roguelike::controls::{handle_key, GameState, InputContext, InputNote, Key, PlayerAction};
use roguelike::grid_vec::GridVec;
use roguelike::resources::{DynamicRng, InputMode, InputState};

fn ctx() -> InputContext {
    let mut input = InputState::default();
    input.welcome_visible = false;
    InputContext {
        game_state: GameState::Playing,
        awaiting_input: true,
        spectating: false,
        input,
        cursor: GridVec::new(10, 10),
        god_mode: false,
        player: Some((EntityId(1), GridVec::new(10, 10))),
        stamina: Some(50),
        items: Some(Vec::new()),
        hostiles: Vec::new(),
        bodies: Vec::new(),
        rng: DynamicRng { tick: 3 },
        seed: 42,
    }
}

fn gun(loaded: i32, name: &str) -> ItemKind {
    ItemKind::Gun { loaded, capacity: 6, caliber: Caliber::Cal44, attack: 8, name: name.to_string(), blunt_damage: 2 }
}

#[test]
fn movement_costs_two_extra_ticks() {
    let (o, a) = handle_key(&ctx(), Key::Char('w'));
    assert_eq!(a, vec![PlayerAction::Move { dx: 0, dy: 1 }]);
    assert!(o.advance_turn);
    assert_eq!(o.extra_ticks, Some(2));
    let (_, a) = handle_key(&ctx(), Key::Left);
    assert_eq!(a, vec![PlayerAction::Move { dx: -1, dy: 0 }]);
}

#[test]
fn action_keys_wait_for_the_players_turn() {
    let mut c = ctx();
    c.awaiting_input = false;
    let (o, a) = handle_key(&c, Key::Char('w'));
    assert!(a.is_empty());
    assert!(!o.advance_turn);
    let (o, _) = handle_key(&c, Key::Char('?'));
    assert!(o.input.help_visible);
}

#[test]
fn welcome_screen_swallows_the_first_key() {
    let mut c = ctx();
    c.input.welcome_visible = true;
    let (o, a) = handle_key(&c, Key::Char('w'));
    assert!(a.is_empty());
    assert!(!o.input.welcome_visible);
}

#[test]
fn pause_menu_opens_and_resumes() {
    let (o, _) = handle_key(&ctx(), Key::Char('q'));
    assert_eq!(o.input.mode, InputMode::EscMenu);
    assert_eq!(o.next_game_state, Some(GameState::Paused));
    let mut c = ctx();
    c.input.mode = InputMode::EscMenu;
    c.game_state = GameState::Paused;
    let (o, _) = handle_key(&c, Key::Char('q'));
    assert_eq!(o.input.mode, InputMode::Game);
    assert_eq!(o.next_game_state, Some(GameState::Playing));
    let (o, _) = handle_key(&c, Key::Char('r'));
    assert!(o.restart);
}

#[test]
fn dead_player_can_restart_or_spectate() {
    let mut c = ctx();
    c.game_state = GameState::Dead;
    assert!(handle_key(&c, Key::Char('r')).0.restart);
    let (o, _) = handle_key(&c, Key::Char('t'));
    assert!(o.spectating);
    assert_eq!(o.next_game_state, Some(GameState::Playing));
    c.game_state = GameState::Victory;
    assert!(!handle_key(&c, Key::Char('t')).0.spectating);
}

#[test]
fn auto_aim_steps_toward_nearest_hostile() {
    let mut c = ctx();
    c.hostiles = vec![GridVec::new(30, 30), GridVec::new(10, 14), GridVec::new(6, 10)];
    let (o, _) = handle_key(&c, Key::Char('v'));
    assert_eq!(o.cursor, GridVec::new(10, 11));
    assert!(o.viewshed_dirty);
    let (o, _) = handle_key(&ctx(), Key::Char('v'));
    assert_eq!(o.note, Some(InputNote::NoEnemiesVisible));
    assert!(!o.advance_turn);
}

#[test]
fn punch_defaults_south_and_needs_a_target() {
    let mut c = ctx();
    c.bodies = vec![(GridVec::new(10, 9), EntityId(7))];
    let (o, a) = handle_key(&c, Key::Char('g'));
    assert_eq!(a, vec![PlayerAction::Punch { target: EntityId(7) }]);
    assert_eq!(o.extra_ticks, Some(1));
    c.cursor = GridVec::new(12, 10);
    let (o, a) = handle_key(&c, Key::Char('g'));
    assert!(a.is_empty());
    assert_eq!(o.note, Some(InputNote::NothingToPunch));
}

#[test]
fn guns_fire_at_the_cursor() {
    let mut c = ctx();
    c.cursor = GridVec::new(15, 12);
    c.items = Some(vec![(EntityId(20), Some(gun(3, "Colt Navy"))), (EntityId(21), Some(gun(2, "Starr 1858"))), (EntityId(22), Some(gun(0, "Colt")))]);
    let (o, a) = handle_key(&c, Key::Char('1'));
    assert_eq!(a, vec![PlayerAction::Shoot { gun: EntityId(20), dx: 5, dy: 2, range: 100 }]);
    assert_eq!(o.extra_ticks, Some(1));
    let (o, _) = handle_key(&c, Key::Char('2'));
    assert_eq!(o.extra_ticks, Some(0));
    let (o, a) = handle_key(&c, Key::Char('3'));
    assert!(a.is_empty());
    assert_eq!(o.note, Some(InputNote::GunEmpty));
    let (o, a) = handle_key(&c, Key::Char('5'));
    assert_eq!(a, vec![PlayerAction::UseItem { index: 4 }]);
    assert!(o.advance_turn);
}

#[test]
fn dive_spends_stamina_and_moves_three_times() {
    let mut c = ctx();
    c.cursor = GridVec::new(4, 16);
    let (o, a) = handle_key(&c, Key::Char('z'));
    assert_eq!(a, vec![PlayerAction::Move { dx: -1, dy: 1 }; 3]);
    assert_eq!(o.input.dive_stamina_pending, 20);
    c.stamina = Some(19);
    let (o, a) = handle_key(&c, Key::Char('z'));
    assert!(a.is_empty());
    assert_eq!(o.note, Some(InputNote::NoStaminaToDive));
}

#[test]
fn fan_shot_fires_every_round() {
    let mut c = ctx();
    c.cursor = GridVec::new(11, 10);
    c.items = Some(vec![(EntityId(30), Some(gun(4, "Colt")))]);
    let (o, a) = handle_key(&c, Key::Char('8'));
    assert_eq!(a.len(), 4);
    assert_eq!(o.note, Some(InputNote::FanShot(4)));
    assert_eq!(o.input.ability_stamina_pending, 20);
    let (o, a) = handle_key(&c, Key::Char('7'));
    assert!(a.is_empty());
    assert_eq!(o.note, Some(InputNote::TooFewRevolvers));
}

#[test]
fn sand_lands_two_tiles_out() {
    let mut c = ctx();
    c.cursor = GridVec::new(20, 10);
    let (_, a) = handle_key(&c, Key::Char('9'));
    assert_eq!(a, vec![PlayerAction::SandCloud { target: GridVec::new(12, 10), radius: 2 }]);
}
