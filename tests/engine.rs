use chaos::arena::{Arena, Spawn};
use chaos::color::{Color, ColorError};
use chaos::creation::GameCreation;
use chaos::error::ChaosError;
use chaos::rules::{Event, ServerState, creation_attack, resolve_disbelieve, wizard_attack};
use chaos::session::{Inbound, SpellSelection, await_choice_step, lobby_step, Choice};
use chaos::spells::{Spell, SpellKind, create_spells};
use chaos::stats::{AttackBuff, BaseStats, CreationStats, DefenceBuff, Frame, Gfx, WizardStats};
use chaos::turn::{Rounds, number_of_turns, spread_target};
use chaos::wizard::{
    ArenaError, GameWizard, LobbyWizards, Player, ServerWizards, Wizard, WizardCharacter, WizardColor,
    WizardError,
};

fn frame(fill: u8) -> Frame {
    Frame { bytes: [fill; 32], fg: Color::BrightWhite, bg: None }
}

fn creation_stats(name: &str, combat: u8, defence: u8) -> CreationStats {
    CreationStats {
        base: BaseStats {
            name: name.to_string(),
            combat,
            ranged_combat: 0,
            range: 0,
            defence,
            movement: 1,
            manoeuvre: 5,
            magical_resistance: 5,
        },
        casting_chance: 5,
        alignment: 0,
        mount: false,
        flying: false,
        undead: false,
        transparent: false,
        subvertable: true,
        attackable: true,
        dragon: false,
        shelter: false,
        magic_wood: false,
        shadow_wood: false,
        gfx: Gfx { timing: 10, frames: [frame(0xff); 4], corpse: None },
    }
}

fn creation(id: u32, combat: u8, defence: u8) -> GameCreation {
    GameCreation::new(id, creation_stats("GOBLIN", combat, defence))
}

fn player(name: &str) -> Player {
    Player { name: name.to_string(), character: WizardCharacter::Merlin, color: WizardColor::BrightRed }
}

fn wizard_stats(name: &str) -> WizardStats {
    WizardStats::from_rolls(name.to_string(), frame(0xff), 0, [4, 4, 4, 4, 4, 4])
}

fn game_wizard(id: u32) -> GameWizard {
    GameWizard::from_wizard(&roster_wizard(id))
}

fn roster_wizard(id: u32) -> Wizard {
    Wizard {
        player: player(&format!("WIZARD{}", id)),
        id,
        alive: true,
        disconnected: false,
        spells: vec![Spell::disbelieve()],
        stats: wizard_stats(&format!("WIZARD{}", id)),
    }
}

fn state_with(ids: &[u32]) -> ServerState {
    let wizards = ServerWizards::new(ids.iter().map(|id| roster_wizard(*id)).collect());
    ServerState { wizards, arena: Arena::new() }
}

fn spell(kind: SpellKind, chance: u8, alignment: i8) -> Spell {
    Spell { name: "TEST".to_string(), chance, range: 13, alignment, kind }
}

#[test]
fn new_arena_is_fifteen_by_ten_and_empty() {
    let arena = Arena::new();
    assert_eq!(arena.width, 15);
    assert_eq!(arena.height, 10);
    assert_eq!(arena.tiles.len(), 150);
    assert_eq!(arena.alignment, 0);
    assert_eq!(arena.number_of_wizards(), 0);
}

#[test]
fn every_board_coordinate_is_accessible() {
    let mut arena = Arena::new();
    for y in 0..10u8 {
        for x in 0..15u8 {
            assert!(arena.contains(x, y));
            arena.get_mut(x, y).creation = Some(creation(u32::from(x) + 100 * u32::from(y), 1, 1));
        }
    }
    for y in 0..10u8 {
        for x in 0..15u8 {
            assert_eq!(arena.get(x, y).creation.as_ref().unwrap().id, u32::from(x) + 100 * u32::from(y));
        }
    }
    assert!(!arena.contains(15, 0));
    assert!(!arena.contains(0, 10));
    assert!(!arena.contains(255, 255));
}

#[test]
fn alignment_saturates() {
    let mut arena = Arena::new();
    arena.adjust_alignment(100);
    arena.adjust_alignment(100);
    assert_eq!(arena.alignment, 127);
    arena.adjust_alignment(-128);
    arena.adjust_alignment(-128);
    assert_eq!(arena.alignment, -128);
    arena.adjust_alignment(5);
    assert_eq!(arena.alignment, -123);
}

#[test]
fn a_tile_sees_itself() {
    let mut arena = Arena::new();
    for (x, y) in [(0u8, 0u8), (7, 4), (14, 9)] {
        arena.get_mut(x, y).wizard = Some(game_wizard(1));
        assert!(arena.line_of_sight(x, y, x, y));
    }
}

#[test]
fn sight_on_an_empty_board_goes_both_ways() {
    let arena = Arena::new();
    assert!(arena.line_of_sight(0, 0, 14, 9));
    assert!(arena.line_of_sight(14, 9, 0, 0));
    assert!(arena.line_of_sight(3, 7, 10, 2));
    assert!(arena.line_of_sight(10, 2, 3, 7));
}

#[test]
fn a_solid_creation_blocks_sight_and_a_transparent_one_does_not() {
    let mut arena = Arena::new();
    arena.get_mut(5, 4).creation = Some(creation(2, 1, 1));
    assert!(!arena.line_of_sight(1, 4, 9, 4));
    assert!(!arena.line_of_sight(9, 4, 1, 4));
    arena.get_mut(5, 4).creation.as_mut().unwrap().stats.transparent = true;
    assert!(arena.line_of_sight(1, 4, 9, 4));
    arena.get_mut(5, 4).creation = None;
    arena.get_mut(5, 4).corpse = Some(creation(2, 1, 1));
    assert!(arena.line_of_sight(1, 4, 9, 4));
}

#[test]
fn a_piece_at_either_end_does_not_block_sight() {
    let mut arena = Arena::new();
    arena.get_mut(1, 4).wizard = Some(game_wizard(1));
    arena.get_mut(9, 4).creation = Some(creation(2, 1, 1));
    assert!(arena.line_of_sight(1, 4, 9, 4));
}

#[test]
fn line_coordinates_run_between_tile_centres() {
    let coords = Arena::line_coords(0, 0, 2, 0);
    assert_eq!(coords.len(), 33);
    assert_eq!(coords[0], (8, 8));
    assert_eq!(coords[32], (40, 8));
    let diagonal = Arena::line_coords(1, 1, 0, 0);
    assert_eq!(diagonal.len(), 17);
    assert_eq!(diagonal[16], (8, 8));
    assert_eq!(Arena::line_coords(3, 3, 3, 3), vec![(56, 56)]);
}

#[test]
fn a_match_of_two_lasts_nineteen_rounds() {
    assert_eq!(number_of_turns(2), 19);
    assert_eq!(number_of_turns(8), 31);
    let mut rounds = Rounds::new(2);
    let mut played = 0;
    while rounds.begin_round(false) {
        played += 1;
    }
    assert_eq!(played, 19);
}

#[test]
fn a_win_ends_the_rounds_early() {
    let mut rounds = Rounds::new(3);
    assert!(rounds.begin_round(false));
    assert!(rounds.begin_round(false));
    assert!(!rounds.begin_round(true));
    assert_eq!(rounds.played, 2);
}

#[test]
fn one_active_wizard_wins() {
    let mut wizards = ServerWizards::new(vec![roster_wizard(1), roster_wizard(2), roster_wizard(3)]);
    assert!(!wizards.check_for_winning_condition());
    wizards.set_dead(1).unwrap();
    assert!(!wizards.check_for_winning_condition());
    wizards.set_disconnected(3).unwrap();
    assert!(wizards.check_for_winning_condition());
    assert_eq!(wizards.all_active_ids(), vec![2]);
    let winners = wizards.winners();
    assert_eq!(winners.len(), 1);
    assert_eq!(winners[0].name, "WIZARD2");
}

#[test]
fn without_a_single_survivor_all_active_players_are_listed() {
    let wizards = ServerWizards::new(vec![roster_wizard(1), roster_wizard(2)]);
    let winners = wizards.winners();
    assert_eq!(winners.iter().map(|p| p.name.clone()).collect::<Vec<_>>(), vec!["WIZARD1", "WIZARD2"]);
    let mut none_left = ServerWizards::new(vec![roster_wizard(1), roster_wizard(2)]);
    none_left.set_dead(1).unwrap();
    none_left.set_dead(2).unwrap();
    assert!(!none_left.check_for_winning_condition());
    assert!(none_left.winners().is_empty());
}

#[test]
fn unknown_ids_are_errors_of_the_roster() {
    let mut wizards = ServerWizards::new(vec![roster_wizard(1)]);
    assert!(wizards.get(7).is_err());
    assert!(wizards.is_alive(7).is_err());
    assert!(wizards.set_dead(7).is_err());
    assert_eq!(wizards.has_disconnected(1), Ok(false));
}

#[test]
fn starting_positions_follow_the_table() {
    let wizards = ServerWizards::new(vec![roster_wizard(4), roster_wizard(9)]);
    assert_eq!(wizards.starting_positions().unwrap(), vec![(1, 4, 4), (13, 4, 9)]);
    let eight = ServerWizards::new((1..=8).map(roster_wizard).collect());
    let places = eight.starting_positions().unwrap();
    assert_eq!(places[0], (0, 0, 1));
    assert_eq!(places[7], (14, 9, 8));
    let alone = ServerWizards::new(vec![roster_wizard(1)]);
    assert_eq!(alone.starting_positions().unwrap_err(), ArenaError::InvalidNumPlayers);
    let crowd = ServerWizards::new((1..=9).map(roster_wizard).collect());
    assert_eq!(crowd.starting_positions().unwrap_err(), ArenaError::InvalidNumPlayers);
}

#[test]
fn spell_selection_waits_for_every_connected_player() {
    let mut state = state_with(&[1, 2, 3]);
    let (mut selection, events) = SpellSelection::new(&state.wizards);
    assert_eq!(events.len(), 4);
    assert!(matches!(events[0], Event::WaitingForOtherPlayers { count: 3 }));
    selection.step(&mut state, Inbound::ChosenSpell { id: 2, choice: Some((0, false)) }).unwrap();
    assert!(!selection.done());
    selection.step(&mut state, Inbound::Disconnected { id: 3 }).unwrap();
    assert!(!selection.done());
    let late = selection.step(&mut state, Inbound::ChosenSpell { id: 3, choice: Some((0, false)) }).unwrap();
    assert!(late.is_empty());
    assert!(!selection.done());
    let again = selection.step(&mut state, Inbound::ChosenSpell { id: 2, choice: None }).unwrap();
    assert!(again.is_empty());
    selection.step(&mut state, Inbound::ChosenSpell { id: 1, choice: None }).unwrap();
    assert!(selection.done());
    assert_eq!(state.wizards.has_disconnected(3), Ok(true));
    let chosen = selection.finish();
    assert_eq!(chosen.len(), 1);
    assert_eq!(chosen[0].0, 2);
    assert!(matches!(chosen[0].1.kind, SpellKind::Disbelieve));
}

#[test]
fn chosen_spells_come_out_in_order_of_player() {
    let mut state = state_with(&[5, 9]);
    let (mut selection, _) = SpellSelection::new(&state.wizards);
    selection.step(&mut state, Inbound::ChosenSpell { id: 9, choice: Some((0, false)) }).unwrap();
    selection.step(&mut state, Inbound::ChosenSpell { id: 5, choice: Some((0, true)) }).unwrap();
    let chosen = selection.finish();
    assert_eq!(chosen.iter().map(|c| c.0).collect::<Vec<_>>(), vec![5, 9]);
    assert!(!chosen[0].2);
}

#[test]
fn choosing_a_spell_past_the_hand_is_an_error() {
    let mut state = state_with(&[1, 2]);
    let (mut selection, _) = SpellSelection::new(&state.wizards);
    let r = selection.step(&mut state, Inbound::ChosenSpell { id: 1, choice: Some((5, false)) });
    assert_eq!(r.unwrap_err(), ChaosError::GameError);
}

#[test]
fn choosing_a_spell_takes_it_from_the_hand() {
    let mut state = state_with(&[1, 2]);
    state.wizards.give_spell(1, spell(SpellKind::MagicBolt, 5, 0));
    state.arena.get_mut(1, 4).wizard = Some(game_wizard(1));
    let before = state.arena.get(1, 4).wizard.as_ref().unwrap().stats.number_of_spells;
    let (mut selection, _) = SpellSelection::new(&state.wizards);
    let events = selection.step(&mut state, Inbound::ChosenSpell { id: 1, choice: Some((1, true)) }).unwrap();
    assert!(matches!(events[0], Event::DeBuffWizard { id: 1, .. }));
    assert_eq!(state.wizards.hand_size(1), Some(1));
    assert_eq!(state.arena.get(1, 4).wizard.as_ref().unwrap().stats.number_of_spells, before - 1);
    selection.step(&mut state, Inbound::ChosenSpell { id: 2, choice: None }).unwrap();
    let chosen = selection.finish();
    assert!(matches!(chosen[0].1.kind, SpellKind::MagicBolt));
    assert!(chosen[0].2);
}

#[test]
fn cast_chance_never_exceeds_nine() {
    let s = spell(SpellKind::WorldAlignment, 9, 1);
    assert_eq!(s.cast_chance(40, 9), 9);
    let low = spell(SpellKind::WorldAlignment, 2, -1);
    assert_eq!(low.cast_chance(-20, 1), 8);
    assert_eq!(low.cast_chance(20, 1), 3);
    assert_eq!(low.cast_chance(-128, 0), 9);
    let neutral = spell(SpellKind::WorldAlignment, 3, 0);
    assert_eq!(neutral.cast_chance(40, 0), 3);
    assert!(low.cast_with_roll(20, 1, 3));
    assert!(!low.cast_with_roll(20, 1, 4));
}

#[test]
fn a_throw_is_a_digit() {
    for _ in 0..100 {
        assert!(chaos::dice::roll_d10() <= 9);
    }
}

#[test]
fn a_starting_hand_draws_from_the_book() {
    let book = vec![spell(SpellKind::Lightning, 6, 0)];
    let hand = create_spells(&book, 5);
    assert_eq!(hand.len(), 5);
    assert!(matches!(hand[0].kind, SpellKind::Disbelieve));
    assert_eq!(hand[0].name, "DISBELIEVE");
    assert!(hand[1..].iter().all(|s| matches!(s.kind, SpellKind::Lightning)));
    assert_eq!(create_spells(&book, 0).len(), 1);
}

#[test]
fn killing_a_wizard_clears_all_its_pieces() {
    let mut arena = Arena::new();
    arena.get_mut(1, 1).wizard = Some(game_wizard(1));
    arena.get_mut(2, 2).creation = Some(creation(1, 1, 1));
    arena.get_mut(3, 3).corpse = Some(creation(1, 1, 1));
    arena.get_mut(4, 4).spawn = Some(Spawn::Fire(creation(1, 1, 1)));
    arena.get_mut(5, 5).spawn = Some(Spawn::Blob(creation(1, 1, 1)));
    arena.get_mut(6, 6).creation = Some(creation(2, 1, 1));
    arena.get_mut(7, 7).wizard = Some(game_wizard(2));
    arena.kill_wizard_and_creations(1);
    assert!(arena.get_topmost_creations_and_corpses_coords(1).is_empty());
    assert_eq!(arena.maybe_find_wizard_pos(1), None);
    assert_eq!(arena.get_topmost_creations_and_corpses_coords(2), vec![(6, 6)]);
    assert_eq!(arena.find_wizard_pos(2), (7, 7));
}

#[test]
fn destroying_creations_spares_the_wizard() {
    let mut arena = Arena::new();
    arena.get_mut(1, 1).wizard = Some(game_wizard(1));
    arena.get_mut(2, 2).creation = Some(creation(1, 1, 1));
    arena.destroy_all_wizard_creations(1);
    assert!(arena.get(2, 2).creation.is_none());
    assert_eq!(arena.find_wizard_pos(1), (1, 1));
}

#[test]
fn a_mount_carries_its_rider() {
    let mut arena = Arena::new();
    arena.get_mut(3, 3).creation = Some(creation(1, 1, 1));
    arena.get_mut(3, 3).wizard = Some(game_wizard(1));
    arena.move_creation(3, 3, 4, 3);
    assert!(arena.get(3, 3).creation.is_none());
    assert!(arena.get(3, 3).wizard.is_none());
    assert_eq!(arena.get(4, 3).creation.as_ref().unwrap().id, 1);
    assert_eq!(arena.get(4, 3).wizard.as_ref().unwrap().id, 1);
}

#[test]
fn moving_a_riderless_creation_leaves_other_tiles_alone() {
    let mut arena = Arena::new();
    arena.get_mut(3, 3).creation = Some(creation(1, 1, 1));
    arena.get_mut(5, 5).wizard = Some(game_wizard(1));
    arena.move_creation(3, 3, 4, 3);
    assert!(arena.get(3, 3).creation.is_none());
    assert_eq!(arena.get(4, 3).creation.as_ref().unwrap().id, 1);
    assert!(arena.get(4, 3).wizard.is_none());
    assert_eq!(arena.find_wizard_pos(1), (5, 5));
}

#[test]
fn disbelieve_on_a_real_creation_fails() {
    let mut state = state_with(&[1, 2]);
    state.arena.get_mut(1, 4).wizard = Some(game_wizard(1));
    state.arena.get_mut(5, 4).creation = Some(creation(2, 1, 1));
    let events = resolve_disbelieve(&mut state, 1, 5, 4, 0);
    assert!(matches!(events[0], Event::Disbelieve { id: 1, x: 5, y: 4, success: false }));
    assert!(matches!(events[1], Event::SpellFails));
    assert!(state.arena.get(5, 4).creation.is_some());
}

#[test]
fn disbelieve_on_an_illusion_removes_it() {
    let mut state = state_with(&[1, 2]);
    state.arena.get_mut(1, 4).wizard = Some(game_wizard(1));
    let mut illusion = creation(2, 1, 1);
    illusion.illusion = true;
    state.arena.get_mut(5, 4).creation = Some(illusion);
    let events = resolve_disbelieve(&mut state, 1, 5, 4, 0);
    assert!(matches!(events[0], Event::Disbelieve { id: 1, x: 5, y: 4, success: true }));
    assert!(matches!(events[1], Event::SpellSucceeds { alignment: 0 }));
    assert!(state.arena.get(5, 4).creation.is_none());
}

#[test]
fn shadow_wood_stays_rooted_after_a_kill() {
    let mut state = state_with(&[1, 2]);
    let mut stats = creation_stats("SHADOW WOOD", 9, 1);
    stats.shadow_wood = true;
    state.arena.get_mut(3, 3).creation = Some(GameCreation::new(1, stats));
    state.arena.get_mut(4, 3).creation = Some(creation(2, 1, 0));
    let outcome = creation_attack(&mut state, 1, 3, 3, 4, 3, 9, 0);
    assert!(outcome.success);
    assert!(!outcome.game_over);
    assert_eq!(outcome.next, Some((3, 3)));
    assert!(state.arena.get(3, 3).creation.as_ref().unwrap().stats.shadow_wood);
    assert!(state.arena.get(4, 3).creation.is_none());
    assert_eq!(state.arena.get(4, 3).corpse.as_ref().unwrap().id, 2);
    assert!(!outcome.events.iter().any(|e| matches!(e, Event::MoveCreation { .. })));
}

#[test]
fn a_creation_that_wins_advances() {
    let mut state = state_with(&[1, 2]);
    state.arena.get_mut(3, 3).creation = Some(creation(1, 9, 1));
    state.arena.get_mut(4, 3).creation = Some(creation(2, 1, 0));
    let outcome = creation_attack(&mut state, 1, 3, 3, 4, 3, 9, 0);
    assert!(outcome.success);
    assert_eq!(outcome.next, Some((4, 3)));
    assert!(state.arena.get(3, 3).creation.is_none());
    assert_eq!(state.arena.get(4, 3).creation.as_ref().unwrap().id, 1);
    assert_eq!(state.arena.get(4, 3).creation.as_ref().unwrap().moves_left, 0);
}

#[test]
fn a_failed_attack_leaves_both_in_place() {
    let mut state = state_with(&[1, 2]);
    state.arena.get_mut(3, 3).creation = Some(creation(1, 0, 1));
    state.arena.get_mut(4, 3).creation = Some(creation(2, 1, 9));
    let outcome = creation_attack(&mut state, 1, 3, 3, 4, 3, 0, 9);
    assert!(!outcome.success);
    assert_eq!(outcome.next, Some((3, 3)));
    assert!(matches!(outcome.events[0], Event::FailedAttack { id: 1, x: 4, y: 3 }));
    assert_eq!(state.arena.get(4, 3).creation.as_ref().unwrap().id, 2);
}

#[test]
fn ties_go_to_the_attacker() {
    let mut state = state_with(&[1, 2]);
    state.arena.get_mut(3, 3).creation = Some(creation(1, 4, 1));
    state.arena.get_mut(4, 3).creation = Some(creation(2, 1, 6));
    let outcome = creation_attack(&mut state, 1, 3, 3, 4, 3, 5, 3);
    assert!(outcome.success);
}

#[test]
fn killing_the_last_rival_ends_the_match() {
    let mut state = state_with(&[1, 2]);
    state.arena.get_mut(1, 4).wizard = Some(game_wizard(1));
    state.arena.get_mut(2, 4).wizard = Some(game_wizard(2));
    state.arena.get_mut(9, 9).creation = Some(creation(2, 1, 1));
    let outcome = wizard_attack(&mut state, 1, 1, 4, 2, 4, 9, 0);
    assert!(outcome.success);
    assert!(outcome.game_over);
    assert_eq!(outcome.next, None);
    assert_eq!(state.wizards.is_alive(2), Ok(false));
    assert!(state.arena.get(9, 9).creation.is_none());
    assert!(state.wizards.check_for_winning_condition());
}

#[test]
fn buffs_raise_combat_and_defence_up_to_nine() {
    let mut stats = wizard_stats("W");
    assert_eq!(stats.base.combat, 3);
    assert_eq!(stats.get_combat(), 3);
    stats.attack_buff = Some(AttackBuff::MagicSword);
    assert_eq!(stats.get_combat(), 7);
    stats.base.combat = 8;
    assert_eq!(stats.get_combat(), 9);
    stats.defence_buff = Some(DefenceBuff::MagicShield);
    stats.shadow_form = true;
    assert_eq!(stats.get_defence(), 3 + 2 + 3);
    assert_eq!(stats.get_movement(), 3);
    assert_eq!(stats.get_range(), 0);
    stats.magic_bow(&[[1; 32]; 4]);
    assert!(stats.magic_bow);
    assert_eq!(stats.get_range(), 6);
    assert_eq!(stats.get_ranged_combat(), 3);
    assert_eq!(stats.gfx.frames[2].bytes, [1; 32]);
}

#[test]
fn starting_stats_follow_the_throws() {
    let stats = WizardStats::from_rolls("MERLIN".to_string(), frame(0), 4, [9, 0, 9, 9, 9, 9]);
    assert_eq!(stats.base.combat, 1 + 4 + 2);
    assert_eq!(stats.base.defence, 1 + 0 + 2);
    assert_eq!(stats.base.manoeuvre, 3 + 4 + 1);
    assert_eq!(stats.base.magical_resistance, 6 + 2);
    assert_eq!(stats.number_of_spells, 17);
    assert_eq!(stats.spell_ability, 2);
    let weak = WizardStats::from_rolls("X".to_string(), frame(0), 0, [0, 0, 0, 0, 0, 4]);
    assert_eq!(weak.spell_ability, 0);
    assert_eq!(weak.number_of_spells, 11);
}

#[test]
fn palette_values_are_checked() {
    assert_eq!(Color::try_from(16), Err(ColorError::InvalidColor));
    assert_eq!(Color::try_from(13), Ok(Color::BrightCyan));
    assert_eq!(chaos::color::to_color_index(Color::BrightWhite, Color::Blue), 0xf1);
    assert_eq!(chaos::color::to_color_tuple(0xf1), Ok((Color::BrightWhite, Color::Blue)));
    assert_eq!(Color::Black.rgb(), 0x090909);
    assert_eq!(WizardCharacter::try_from(8), Err(WizardError::InvalidWizardCharacterValue));
    assert_eq!(WizardCharacter::try_from(5), Ok(WizardCharacter::Merlin));
    assert_eq!(WizardColor::try_from(-1), Err(WizardError::InvalidWizardColorValue));
    assert_eq!(WizardColor::try_from(4).unwrap().to_color(), Color::Yellow);
}

#[test]
fn the_lobby_starts_when_two_are_ready() {
    let mut lobby = LobbyWizards::new();
    let (events, start) = lobby_step(&mut lobby, Inbound::Join { id: 7, player: player("A") });
    assert_eq!(events.len(), 1);
    assert!(!start);
    lobby_step(&mut lobby, Inbound::Join { id: 3, player: player("B") });
    let (_, start) = lobby_step(&mut lobby, Inbound::Ready { id: 7, ready: true });
    assert!(!start);
    let (_, start) = lobby_step(&mut lobby, Inbound::Ready { id: 3, ready: true });
    assert!(start);
    assert_eq!(lobby.players().iter().map(|p| p.id).collect::<Vec<_>>(), vec![3, 7]);
    let (events, _) = lobby_step(&mut lobby, Inbound::Disconnected { id: 3 });
    assert!(matches!(events[0], Event::Leave { id: 3 }));
    assert!(!lobby.is_ready());
}

#[test]
fn the_lobby_holds_at_most_eight() {
    let mut lobby = LobbyWizards::new();
    for id in 0..8 {
        assert!(lobby.join(id, player("P")));
    }
    assert!(!lobby.join(8, player("Q")));
    assert_eq!(lobby.len(), 8);
    assert!(!lobby.ready(42, true));
    assert!(lobby.leave(42).is_none());
}

#[test]
fn waiting_for_a_choice_hears_only_the_awaited_player() {
    let mut wizards = ServerWizards::new(vec![roster_wizard(1), roster_wizard(2)]);
    let tiles = vec![(3, 3), (4, 4)];
    assert!(matches!(
        await_choice_step(&mut wizards, 1, &tiles, &Inbound::ChosenTile { id: 2, tile: Some(0) }),
        Choice::Waiting
    ));
    assert!(matches!(
        await_choice_step(&mut wizards, 1, &tiles, &Inbound::ChosenTile { id: 1, tile: Some(5) }),
        Choice::Waiting
    ));
    assert!(matches!(
        await_choice_step(&mut wizards, 1, &tiles, &Inbound::ChosenTile { id: 1, tile: Some(1) }),
        Choice::Chosen(Some((4, 4)))
    ));
    assert!(matches!(
        await_choice_step(&mut wizards, 1, &tiles, &Inbound::Disconnected { id: 2 }),
        Choice::Waiting
    ));
    assert_eq!(wizards.has_disconnected(2), Ok(true));
    assert!(matches!(
        await_choice_step(&mut wizards, 1, &tiles, &Inbound::Disconnected { id: 1 }),
        Choice::Chosen(None)
    ));
}

#[test]
fn targeting_lists_follow_range_and_ownership() {
    let mut arena = Arena::new();
    arena.get_mut(5, 5).wizard = Some(game_wizard(1));
    arena.get_mut(6, 5).creation = Some(creation(2, 1, 1));
    arena.get_mut(5, 6).creation = Some(creation(1, 1, 1));
    arena.get_mut(9, 9).wizard = Some(game_wizard(2));
    assert_eq!(arena.cast_spell_on_attackable_tiles(5, 5, 3, 1), vec![(6, 5)]);
    assert_eq!(arena.cast_spell_on_attackable_tiles(5, 5, 40, 1), vec![(6, 5), (9, 9)]);
    assert_eq!(arena.neighbouring_foes(5, 5, 1), vec![(6, 5)]);
    assert!(arena.has_neighbouring_foes(5, 5, 1));
    let empty = arena.creation_spell_tiles(5, 5, 1);
    assert_eq!(empty, vec![(5, 4), (4, 5)]);
    assert_eq!(arena.ranged_combat_tiles(0, 0, 1), vec![(1, 0), (0, 1)]);
    assert_eq!(arena.wizard_movement_tiles(5, 5, 1).len(), 7);
    assert!(!arena.wizard_movement_tiles(5, 5, 1).contains(&(5, 6)));
    assert_eq!(arena.wizard_flying_tiles(0, 0, 1, 7).len(), 3);
}

#[test]
fn spawns_spread_to_a_neighbour_on_the_board() {
    assert_eq!(spread_target(5, 5, 2), Some((5, 4)));
    assert_eq!(spread_target(5, 5, 5), Some((6, 6)));
    assert_eq!(spread_target(5, 5, 9), Some((4, 4)));
    assert_eq!(spread_target(0, 0, 9), None);
    assert_eq!(spread_target(14, 9, 4), None);
    assert_eq!(spread_target(5, 5, 1), None);
}

#[test]
fn raising_the_dead_makes_undead() {
    let mut arena = Arena::new();
    arena.get_mut(2, 2).corpse = Some(creation(2, 1, 1));
    assert_eq!(arena.visible_corpse_tiles(3, 3, 3), vec![(2, 2)]);
    arena.raise_dead(2, 2, 1);
    let raised = arena.get(2, 2).creation.as_ref().unwrap();
    assert_eq!(raised.id, 1);
    assert!(raised.stats.undead);
    assert!(arena.get(2, 2).corpse.is_none());
    arena.subvert(2, 2, 3);
    assert_eq!(arena.get(2, 2).creation.as_ref().unwrap().id, 3);
}

#[test]
fn moves_are_reset_at_the_start_of_a_turn() {
    let mut arena = Arena::new();
    arena.get_mut(1, 1).wizard = Some(game_wizard(1));
    let mut horse = creation(1, 1, 1);
    horse.stats.base.movement = 4;
    arena.get_mut(2, 2).creation = Some(horse);
    arena.get_mut(3, 3).creation = Some(creation(1, 1, 1));
    arena.get_mut(3, 3).spawn = Some(Spawn::Blob(creation(2, 1, 1)));
    arena.reset_moves(1);
    assert_eq!(arena.get(1, 1).wizard.as_ref().unwrap().moves_left, 1);
    assert_eq!(arena.get(2, 2).creation.as_ref().unwrap().moves_left, 4);
    assert_eq!(arena.get(3, 3).creation.as_ref().unwrap().moves_left, 0);
    assert_eq!(arena.tiles_with_moves_left(1), vec![(1, 1), (2, 2)]);
}

#[test]
fn straight_lines_sample_the_same_pixels_both_ways() {
    for a in 0..150u8 {
        for b in 0..150u8 {
            let (sx, sy, dx, dy) = (a % 15, a / 15, b % 15, b / 15);
            if sx != dx && sy != dy && sx.abs_diff(dx) != sy.abs_diff(dy) {
                continue;
            }
            let mut forward: Vec<(i32, i32)> = Arena::line_coords(sx, sy, dx, dy).into_iter().step_by(4).collect();
            let mut backward: Vec<(i32, i32)> = Arena::line_coords(dx, dy, sx, sy).into_iter().step_by(4).collect();
            forward.sort();
            backward.sort();
            assert_eq!(forward, backward, "{:?}", (sx, sy, dx, dy));
        }
    }
}

#[test]
fn sight_off_the_straight_lines_can_differ_by_direction() {
    let forward: Vec<(i32, i32)> = Arena::line_coords(0, 0, 8, 1).into_iter().step_by(4).collect();
    let backward: Vec<(i32, i32)> = Arena::line_coords(8, 1, 0, 0).into_iter().step_by(4).collect();
    let (px, py) = *forward
        .iter()
        .find(|p| !backward.contains(p) && !((p.0 / 16 == 0 && p.1 / 16 == 0) || (p.0 / 16 == 8 && p.1 / 16 == 1)))
        .expect("a pixel sampled one way only");
    let (tx, ty) = ((px / 16) as u8, (py / 16) as u8);
    let (col, row) = ((px % 16) as usize, (py % 16) as usize);
    let mut bytes = [0u8; 32];
    bytes[2 * row + col / 8] = 0x80 >> (col % 8);
    let mut stats = creation_stats("DOT", 1, 1);
    stats.gfx.frames = [Frame { bytes, fg: Color::BrightWhite, bg: None }; 4];
    let mut arena = Arena::new();
    arena.get_mut(tx, ty).creation = Some(GameCreation::new(2, stats));
    assert!(!arena.line_of_sight(0, 0, 8, 1));
    assert!(arena.line_of_sight(8, 1, 0, 0));
}

use chaos::movement::{Destination, PieceAction, Walk, check_engaged, creation_destination, creation_step, piece_action, wizard_destination, wizard_step};
use chaos::rules::{Summon, creation_ranged_combat, resolve_bolt, resolve_magical_attack, resolve_raise_dead, resolve_subversion, resolve_summon, spell_targets, wizard_ranged_combat};
use chaos::turn::{Placement, SpellMode, blob_mutate, cast_magic_wood, fire_attack, magic_wood_tick, place_step, resolve_self_spell, setup_board, shelter_tick, spell_mode, spread_spawn};

#[test]
fn summoning_needs_the_throw_unless_it_is_an_illusion() {
    let mut state = state_with(&[1, 2]);
    let s = spell(SpellKind::Creation(creation_stats("ORC", 2, 1)), 4, -1);
    let stats = creation_stats("ORC", 2, 1);
    let failed = resolve_summon(&mut state, 1, &s, &stats, Summon::Creation, 3, 3, false, 0, 0, 5);
    assert!(matches!(failed[0], Event::CreationSpell { creation: None, .. }));
    assert!(matches!(failed[1], Event::SpellFails));
    assert!(state.arena.get(3, 3).creation.is_none());
    let shown = resolve_summon(&mut state, 1, &s, &stats, Summon::Creation, 3, 3, true, 0, 0, 9);
    assert!(matches!(shown[1], Event::SpellSucceeds { alignment: -1 }));
    assert!(state.arena.get(3, 3).creation.as_ref().unwrap().illusion);
    let fire = resolve_summon(&mut state, 1, &s, &stats, Summon::Fire, 4, 4, true, 0, 0, 4);
    assert!(matches!(fire[0], Event::CastFire { fire: Some(_), .. }));
    assert!(matches!(state.arena.get(4, 4).spawn, Some(Spawn::Fire(_))));
    assert!(!state.arena.get(4, 4).spawn.as_ref().unwrap().body().illusion);
}

#[test]
fn walls_need_one_throw_and_stop_at_their_limit() {
    let mut state = state_with(&[1, 2]);
    let stats = creation_stats("WALL", 0, 8);
    let s = spell(SpellKind::Wall(stats.clone()), 5, 0);
    let failed = place_step(&mut state, 1, &s, &stats, 2, 2, 0, 0, 9, Placement { cast: false, count: 0 }, 4);
    assert!(failed.next.is_none());
    assert!(state.arena.get(2, 2).creation.is_none());
    let mut placement = Placement { cast: false, count: 0 };
    for x in 0..4u8 {
        let step = place_step(&mut state, 1, &s, &stats, x, 5, 0, 0, if x == 0 { 0 } else { 9 }, placement, 4);
        assert!(state.arena.get(x, 5).creation.is_some());
        match step.next {
            Some(next) => placement = next,
            None => assert_eq!(x, 3),
        }
    }
    assert_eq!(placement, Placement { cast: true, count: 3 });
}

#[test]
fn shadow_wood_may_not_grow_next_to_shadow_wood() {
    let mut state = state_with(&[1, 2]);
    let mut stats = creation_stats("SHADOW WOOD", 3, 4);
    stats.shadow_wood = true;
    state.arena.get_mut(5, 5).creation = Some(GameCreation::new(1, stats.clone()));
    let s = spell(SpellKind::ShadowWood(stats.clone()), 9, 0);
    let placement = Placement { cast: true, count: 1 };
    let step = place_step(&mut state, 1, &s, &stats, 6, 6, 0, 0, 0, placement, 8);
    assert!(matches!(step.events[0], Event::ShadowWoodInfo { id: 1 }));
    assert_eq!(step.next, Some(placement));
    assert!(state.arena.get(6, 6).creation.is_none());
}

#[test]
fn magic_wood_plants_trees_in_range_of_the_caster() {
    let mut state = state_with(&[1, 2]);
    state.arena.get_mut(7, 5).wizard = Some(game_wizard(1));
    let mut stats = creation_stats("MAGIC WOOD", 0, 5);
    stats.magic_wood = true;
    let s = Spell { name: "MAGIC WOOD".to_string(), chance: 9, range: 16, alignment: 1, kind: SpellKind::MagicWood(stats.clone()) };
    cast_magic_wood(&mut state, 1, &s, &stats, 0, 0, 0);
    let trees: Vec<(u8, u8)> = (0..150u8)
        .map(|i| (i % 15, i / 15))
        .filter(|(x, y)| state.arena.get(*x, *y).creation.as_ref().is_some_and(|c| c.stats.magic_wood))
        .collect();
    assert!(!trees.is_empty() && trees.len() <= 8);
    for (x, y) in trees {
        let d = (i32::from(x) - 7).pow(2) + (i32::from(y) - 5).pow(2);
        assert!(d > 0 && d <= 16);
    }
    let mut unlucky = state_with(&[1, 2]);
    unlucky.arena.get_mut(7, 5).wizard = Some(game_wizard(1));
    let weak = Spell { chance: 0, ..s.clone() };
    cast_magic_wood(&mut unlucky, 1, &weak, &stats, 0, 0, 9);
    assert_eq!(unlucky.arena.tiles_with_moves_left(1).len(), 0);
    assert!((0..150u8).all(|i| unlucky.arena.get(i % 15, i / 15).creation.is_none()));
}

#[test]
fn bolts_and_magical_attacks_destroy_what_they_beat() {
    let mut state = state_with(&[1, 2]);
    state.arena.get_mut(5, 5).creation = Some(creation(2, 1, 4));
    let miss = resolve_bolt(&mut state, 1, 5, 5, 3, false, 0, 9);
    assert!(!miss.success);
    assert!(matches!(miss.events[0], Event::MagicBolt { success: false, .. }));
    let hit = resolve_bolt(&mut state, 1, 5, 5, 6, true, 5, 7);
    assert!(hit.success);
    assert!(matches!(hit.events[0], Event::Lightning { success: true, .. }));
    assert!(state.arena.get(5, 5).creation.is_none());
    assert!(state.arena.get(5, 5).corpse.is_none());
    state.arena.get_mut(2, 2).wizard = Some(game_wizard(2));
    state.arena.get_mut(3, 3).creation = Some(creation(2, 1, 1));
    let drained = resolve_magical_attack(&mut state, 1, 2, 2, 9, 9, 0);
    assert!(drained.success);
    assert!(state.arena.get(3, 3).creation.is_none());
    assert!(state.arena.get(2, 2).wizard.is_some());
}

#[test]
fn subversion_and_raise_dead_change_owners() {
    let mut state = state_with(&[1, 2]);
    let s = spell(SpellKind::Subversion, 9, 0);
    let mut fake = creation(2, 1, 1);
    fake.illusion = true;
    state.arena.get_mut(4, 4).creation = Some(fake);
    let refused = resolve_subversion(&mut state, 1, &s, 4, 4, 0, 9, 0, 9, 0);
    assert_eq!(refused.len(), 1);
    assert_eq!(state.arena.get(4, 4).creation.as_ref().unwrap().id, 2);
    state.arena.get_mut(5, 5).creation = Some(creation(2, 1, 1));
    let events = resolve_subversion(&mut state, 1, &s, 5, 5, 0, 9, 0, 9, 0);
    assert!(matches!(events[1], Event::Subversion { id: 1, success: true, .. }));
    assert_eq!(state.arena.get(5, 5).creation.as_ref().unwrap().id, 1);
    state.arena.get_mut(6, 6).corpse = Some(creation(2, 1, 1));
    let raised = resolve_raise_dead(&mut state, 1, &spell(SpellKind::RaiseDead, 9, -1), 6, 6, 0, 9, 0, 9, 0);
    assert!(matches!(raised[0], Event::RaiseDead { success: true, .. }));
    assert!(state.arena.get(6, 6).creation.as_ref().unwrap().stats.undead);
}

#[test]
fn self_spells_equip_the_caster() {
    let mut state = state_with(&[1, 2]);
    state.arena.get_mut(1, 1).wizard = Some(game_wizard(1));
    let sword = spell(SpellKind::WizardAttackBuff(AttackBuff::MagicSword), 9, 1);
    let events = resolve_self_spell(&mut state, 1, &sword, 0, 0, 3, &[[7; 32]; 4]);
    assert!(matches!(events[0], Event::BuffWizard { id: 1, .. }));
    let w = state.arena.get(1, 1).wizard.as_ref().unwrap();
    assert_eq!(w.stats.attack_buff, Some(AttackBuff::MagicSword));
    assert_eq!(w.stats.gfx.frames[0].bytes, [7; 32]);
    assert_eq!(state.arena.alignment, 1);
    let wings = spell(SpellKind::MagicWings, 0, 0);
    let failed = resolve_self_spell(&mut state, 1, &wings, 0, 0, 1, &[[0; 32]; 4]);
    assert_eq!(failed.len(), 1);
    assert!(!state.arena.get(1, 1).wizard.as_ref().unwrap().stats.magic_wings);
}

#[test]
fn fire_burns_and_blobs_cover() {
    let mut state = state_with(&[1, 2]);
    let fire = creation(1, 0, 0);
    state.arena.get_mut(3, 3).corpse = Some(creation(2, 1, 1));
    fire_attack(&fire, &mut state, 3, 3, 0, 0);
    assert!(matches!(state.arena.get(3, 3).spawn, Some(Spawn::Fire(_))));
    assert!(state.arena.get(3, 3).corpse.is_none());
    state.arena.get_mut(4, 4).creation = Some(creation(2, 1, 9));
    fire_attack(&fire, &mut state, 4, 4, 0, 9);
    assert!(state.arena.get(4, 4).creation.is_some());
    fire_attack(&fire, &mut state, 4, 4, 9, 0);
    assert!(state.arena.get(4, 4).creation.is_none());
    assert!(state.arena.get(4, 4).corpse.is_none());
    let blob = creation(1, 0, 0);
    state.arena.get_mut(6, 6).creation = Some(creation(2, 1, 1));
    blob_mutate(&blob, &mut state, 6, 6, 0, 0);
    assert!(matches!(state.arena.get(6, 6).spawn, Some(Spawn::Blob(_))));
    assert!(state.arena.get(6, 6).creation.is_some());
}

#[test]
fn spawns_die_out_or_spread() {
    let mut state = state_with(&[1, 2]);
    state.arena.get_mut(5, 5).spawn = Some(Spawn::Fire(creation(1, 0, 0)));
    spread_spawn(&mut state, 5, 5, 4, 0, 0);
    assert!(matches!(state.arena.get(6, 5).spawn, Some(Spawn::Fire(_))));
    spread_spawn(&mut state, 5, 5, 1, 0, 0);
    assert!(state.arena.get(5, 5).spawn.is_none());
    assert_eq!(state.arena.all_spawn_tiles(), vec![(6, 5)]);
}

#[test]
fn the_environment_burns_shelters_and_feeds_wizards_in_trees() {
    let mut state = state_with(&[1, 2]);
    let mut shelter = creation(1, 0, 0);
    shelter.stats.shelter = true;
    state.arena.get_mut(2, 2).creation = Some(shelter);
    assert_eq!(state.arena.all_combustable_shelter_tiles(), vec![(2, 2)]);
    assert!(shelter_tick(&mut state, 2, 2, 8).is_empty());
    assert_eq!(shelter_tick(&mut state, 2, 2, 9).len(), 1);
    assert!(state.arena.get(2, 2).creation.is_none());
    let mut tree = creation(1, 0, 0);
    tree.stats.magic_wood = true;
    state.arena.get_mut(4, 4).creation = Some(tree);
    state.arena.get_mut(4, 4).wizard = Some(game_wizard(1));
    assert_eq!(state.arena.wizards_in_trees(), vec![(4, 4)]);
    assert!(magic_wood_tick(&mut state, 4, 4, 8, spell(SpellKind::MagicBow, 5, 0)).is_empty());
    let events = magic_wood_tick(&mut state, 4, 4, 9, spell(SpellKind::MagicBow, 5, 0));
    assert_eq!(events.len(), 3);
    assert_eq!(state.wizards.hand_size(1), Some(2));
    assert!(state.arena.get(4, 4).creation.is_none());
}

#[test]
fn pieces_act_by_their_kind() {
    let mut arena = Arena::new();
    let mut rider = creation(1, 1, 1);
    rider.stats.mount = true;
    arena.get_mut(1, 1).creation = Some(rider);
    arena.get_mut(1, 1).wizard = Some(game_wizard(1));
    assert_eq!(piece_action(&arena, 1, 1, false), PieceAction::AskDismount);
    assert_eq!(piece_action(&arena, 1, 1, true), PieceAction::CreationEngaged);
    let mut bird = creation(1, 1, 1);
    bird.stats.flying = true;
    arena.get_mut(3, 3).creation = Some(bird);
    assert_eq!(piece_action(&arena, 3, 3, false), PieceAction::FlyCreation);
    let mut winged = game_wizard(1);
    winged.stats.magic_wings = true;
    arena.get_mut(5, 5).wizard = Some(winged);
    assert_eq!(piece_action(&arena, 5, 5, false), PieceAction::FlyWizard);
    assert_eq!(piece_action(&arena, 5, 5, true), PieceAction::WizardEngaged);
}

#[test]
fn undead_are_immune_to_the_living() {
    let mut arena = Arena::new();
    arena.get_mut(1, 1).wizard = Some(game_wizard(1));
    arena.get_mut(2, 2).creation = Some(creation(1, 1, 1));
    let mut ghost = creation(2, 1, 1);
    ghost.stats.undead = true;
    arena.get_mut(2, 1).creation = Some(ghost);
    assert_eq!(wizard_destination(&arena, 1, 1, 1, 2, 1, false), Destination::UndeadImmune);
    assert_eq!(creation_destination(&arena, 2, 2, 2, 1, false), Destination::UndeadImmune);
    assert_eq!(creation_destination(&arena, 2, 2, 3, 3, false), Destination::Move);
    assert_eq!(wizard_destination(&arena, 1, 1, 1, 0, 0, false), Destination::Move);
    arena.get_mut(1, 1).wizard.as_mut().unwrap().stats.attack_buff = Some(AttackBuff::MagicKnife);
    assert_eq!(wizard_destination(&arena, 1, 1, 1, 2, 1, false), Destination::Attack);
}

#[test]
fn engagement_takes_the_first_foe_that_wins() {
    let mut arena = Arena::new();
    arena.get_mut(4, 4).creation = Some(creation(1, 1, 1));
    arena.get_mut(5, 4).creation = Some(creation(2, 1, 1));
    assert!(check_engaged(&arena, 1, 4, 4, 5, &vec![(0, 0)]));
    assert!(!check_engaged(&arena, 1, 4, 4, 5, &vec![(9, 0)]));
    assert!(!check_engaged(&arena, 1, 0, 0, 5, &vec![]));
}

#[test]
fn walking_spends_movement_and_stops_by_enemies() {
    let mut state = state_with(&[1, 2]);
    let mut horse = creation(1, 1, 1);
    horse.moves_left = 2;
    state.arena.get_mut(1, 1).creation = Some(horse);
    let (_, walk) = creation_step(&mut state, 1, 1, 1, 2, 1);
    assert_eq!(walk, Walk::Continue);
    assert_eq!(state.arena.get(2, 1).creation.as_ref().unwrap().moves_left, 1);
    state.arena.get_mut(4, 1).creation = Some(creation(2, 1, 1));
    let (_, walk) = creation_step(&mut state, 1, 2, 1, 3, 1);
    assert_eq!(walk, Walk::Engaged);
    let mut w = game_wizard(1);
    w.moves_left = 1;
    state.arena.get_mut(8, 8).wizard = Some(w);
    let (events, walk) = wizard_step(&mut state, 1, 8, 8, 8, 9);
    assert!(matches!(events[0], Event::MoveWizard { id: 1, x: 8, y: 9 }));
    assert_eq!(walk, Walk::Stop { ranged: true });
}

#[test]
fn ranged_attacks_kill_at_a_distance() {
    let mut state = state_with(&[1, 2]);
    let mut archer = creation(1, 1, 1);
    archer.stats.base.ranged_combat = 5;
    archer.stats.base.range = 6;
    state.arena.get_mut(1, 1).creation = Some(archer);
    state.arena.get_mut(4, 1).creation = Some(creation(2, 1, 3));
    let missed = creation_ranged_combat(&mut state, 1, 1, 1, 4, 1, 0, 9);
    assert!(!missed.success);
    assert!(matches!(missed.events[0], Event::FailedRangedAttack { .. }));
    let hit = creation_ranged_combat(&mut state, 1, 1, 1, 4, 1, 9, 0);
    assert!(hit.success);
    assert_eq!(state.arena.get(4, 1).corpse.as_ref().unwrap().id, 2);
    state.arena.get_mut(6, 6).wizard = Some(game_wizard(1));
    state.arena.get_mut(6, 7).creation = Some(creation(2, 1, 0));
    let unarmed = wizard_ranged_combat(&mut state, 1, 6, 6, 6, 7, 0, 0);
    assert!(unarmed.success);
}

#[test]
fn spells_are_carried_out_by_kind() {
    assert_eq!(spell_mode(&SpellKind::Wall(creation_stats("W", 0, 0))), SpellMode::Area { limit: 4 });
    assert_eq!(spell_mode(&SpellKind::Lightning), SpellMode::Bolt { combat: 6, lightning: true });
    assert_eq!(spell_mode(&SpellKind::MagicalAttack(3)), SpellMode::Magical { attempts: 3 });
    assert_eq!(spell_mode(&SpellKind::ShadowForm), SpellMode::OnSelf);
    let mut arena = Arena::new();
    arena.get_mut(2, 2).corpse = Some(creation(2, 1, 1));
    assert_eq!(spell_targets(&arena, &SpellKind::RaiseDead, 4, 3, 3, 1), vec![(2, 2)]);
    assert!(spell_targets(&arena, &SpellKind::MagicBow, 4, 3, 3, 1).is_empty());
}

#[test]
fn the_board_is_set_up_from_the_table() {
    let mut state = state_with(&[3, 5, 8]);
    assert!(setup_board(&mut state).is_ok());
    assert_eq!(state.arena.find_wizard_pos(3), (7, 1));
    assert_eq!(state.arena.find_wizard_pos(5), (1, 8));
    assert_eq!(state.arena.find_wizard_pos(8), (13, 8));
    assert_eq!(state.arena.number_of_wizards(), 3);
    let mut alone = state_with(&[3]);
    assert!(setup_board(&mut alone).is_err());
    assert_eq!(alone.arena.number_of_wizards(), 0);
}

#[test]
fn frames_and_animation() {
    let f = Frame { bytes: [3; 32], fg: Color::Red, bg: None };
    let swapped = f.swap_colors();
    assert_eq!(swapped.fg, Color::Black);
    assert_eq!(swapped.bg, Some(Color::Red));
    let mut c = creation(1, 1, 1);
    c.stats.gfx.timing = 1;
    c.tic();
    assert_eq!((c.frame_count, c.current_frame), (1, 0));
    c.tic();
    assert_eq!((c.frame_count, c.current_frame), (0, 1));
    let mut arena = Arena::new();
    arena.get_mut(0, 0).creation = Some(c);
    assert_eq!(arena.get_visible_frame(0, 0).bytes, [0xff; 32]);
    let book = vec![spell(SpellKind::MagicBow, 5, 0)];
    assert!(matches!(Spell::random(&book).kind, SpellKind::MagicBow));
}

#[test]
fn the_environment_phases_touch_only_their_pieces() {
    let mut state = state_with(&[1, 2]);
    let mut shelter = creation(1, 0, 0);
    shelter.stats.shelter = true;
    state.arena.get_mut(2, 2).creation = Some(shelter);
    state.arena.get_mut(5, 5).creation = Some(creation(2, 1, 1));
    chaos::turn::do_shelter_turn(&mut state);
    assert_eq!(state.arena.get(5, 5).creation.as_ref().unwrap().id, 2);
    let (events, over) = chaos::turn::do_fire(&mut state);
    assert!(events.is_empty());
    assert!(!over);
    let book = vec![Spell::disbelieve(), spell(SpellKind::MagicBow, 5, 0)];
    assert!(chaos::turn::do_magic_wood(&mut state, &book).is_empty());
    assert!(!chaos::movement::is_engaged_now(&state.arena, 1, 10, 0, 5));
}

use chaos::movement::{creation_landing, dismount_choice, sole_wizard_at, take_off, wizard_landing};
use chaos::rules::{cast_attack_spell, is_attack_target};

#[test]
fn attacking_spells_throw_before_targeting() {
    let mut state = state_with(&[1, 2]);
    let bolt = spell(SpellKind::MagicBolt, 3, 1);
    let (events, cast) = cast_attack_spell(&mut state, &bolt, 0, 0, 7);
    assert!(!cast);
    assert!(matches!(events[0], Event::SpellFails));
    let (events, cast) = cast_attack_spell(&mut state, &bolt, 0, 0, 2);
    assert!(cast && events.is_empty());
    assert_eq!(state.arena.alignment, 0);
    let lightning = spell(SpellKind::Lightning, 9, -2);
    let (events, cast) = cast_attack_spell(&mut state, &lightning, 0, 0, 9);
    assert!(cast);
    assert!(matches!(events[0], Event::SpellSucceeds { alignment: -2 }));
}

#[test]
fn flying_pieces_take_off_and_land() {
    let mut state = state_with(&[1, 2]);
    let mut bird = creation(1, 1, 1);
    bird.stats.base.movement = 5;
    bird.moves_left = 5;
    state.arena.get_mut(1, 1).creation = Some(bird);
    assert_eq!(take_off(&mut state, 1, 1, true), 5);
    assert_eq!(state.arena.get(1, 1).creation.as_ref().unwrap().moves_left, 0);
    let (_, walk) = creation_landing(&mut state, 1, 1, 1, 6, 6);
    assert_eq!(walk, Walk::Stop { ranged: true });
    state.arena.get_mut(3, 3).wizard = Some(game_wizard(1));
    assert_eq!(take_off(&mut state, 3, 3, false), 6);
    state.arena.get_mut(9, 3).creation = Some(creation(1, 1, 1));
    state.arena.get_mut(9, 3).creation.as_mut().unwrap().moves_left = 2;
    let (_, walk) = wizard_landing(&mut state, 1, 3, 3, 9, 3);
    assert_eq!(walk, Walk::Stop { ranged: false });
    assert_eq!(state.arena.get(9, 3).creation.as_ref().unwrap().moves_left, 0);
    assert!(sole_wizard_at(&state.arena, 1, 9, 3));
    assert!(!sole_wizard_at(&state.arena, 1, 3, 3));
}

#[test]
fn dismounting_decides_who_moves() {
    let mut state = state_with(&[1, 2]);
    let mut pegasus = creation(1, 1, 1);
    pegasus.stats.flying = true;
    pegasus.moves_left = 3;
    state.arena.get_mut(2, 2).creation = Some(pegasus);
    let mut rider = game_wizard(1);
    rider.moves_left = 1;
    state.arena.get_mut(2, 2).wizard = Some(rider);
    assert_eq!(dismount_choice(&mut state, 2, 2, false), PieceAction::FlyCreation);
    assert_eq!(state.arena.get(2, 2).wizard.as_ref().unwrap().moves_left, 0);
    assert_eq!(dismount_choice(&mut state, 2, 2, true), PieceAction::WalkWizard);
    assert_eq!(state.arena.get(2, 2).creation.as_ref().unwrap().moves_left, 0);
}

#[test]
fn attack_targets_are_enemy_pieces() {
    let mut arena = Arena::new();
    arena.get_mut(1, 1).creation = Some(creation(2, 1, 1));
    arena.get_mut(2, 2).creation = Some(creation(1, 1, 1));
    arena.get_mut(3, 3).spawn = Some(Spawn::Fire(creation(2, 1, 1)));
    assert!(is_attack_target(&arena, 1, 1, 1));
    assert!(!is_attack_target(&arena, 1, 2, 2));
    assert!(!is_attack_target(&arena, 1, 3, 3));
    assert!(!is_attack_target(&arena, 1, 4, 4));
}

use chaos::turn::Phase;

#[test]
fn phases_run_the_rounds_in_order() {
    let mut rounds = Rounds::new(2);
    let mut phase = rounds.first_phase();
    let mut selections = 1;
    loop {
        phase = rounds.next_phase(phase, false);
        match phase {
            Phase::SelectSpells => selections += 1,
            Phase::End => break,
            _ => {}
        }
    }
    assert_eq!(selections, 19);
    let mut short = Rounds::new(2);
    let first = short.first_phase();
    assert_eq!(short.next_phase(first, true), Phase::End);
}
