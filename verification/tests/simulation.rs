//! End-to-end checks of the simulation core: combat, inventory, the spatial
//! index, the turn pipeline, persistence and the smaller utilities.

use rogue_core::components::BlocksTile;
use rogue_core::components::CombatStats;
use rogue_core::components::Consumable;
use rogue_core::components::InBackpack;
use rogue_core::components::Item;
use rogue_core::components::Monster;
use rogue_core::components::MovementSpeed;
use rogue_core::components::Name;
use rogue_core::components::Player;
use rogue_core::components::Point;
use rogue_core::components::Position;
use rogue_core::components::ProvidesHealing;
use rogue_core::components::SerializeMe;
use rogue_core::components::SufferDamage;
use rogue_core::components::Viewshed;
use rogue_core::components::WantsToMelee;
use rogue_core::components::WantsToPickupItem;
use rogue_core::components::WantsToUseItem;
use rogue_core::damage_system::delete_the_dead;
use rogue_core::damage_system::DamageSystem;
use rogue_core::entity::Entity;
use rogue_core::gamelog::GameLog;
use rogue_core::gui::find_player;
use rogue_core::gui::player_inventory;
use rogue_core::gui::tooltip_names;
use rogue_core::inventory_system::ItemCollectionSystem;
use rogue_core::inventory_system::ItemDropSystem;
use rogue_core::inventory_system::ItemUseSystem;
use rogue_core::keys_util::can_press;
use rogue_core::keys_util::KeyPress;
use rogue_core::keys_util::KeyState;
use rogue_core::map::GameMap;
use rogue_core::map::TileType;
use rogue_core::map_indexing_system::MapIndexingSystem;
use rogue_core::melee_combat_system::MeleeCombatSystem;
use rogue_core::monster_ai_system::MonsterAI;
use rogue_core::movement_util::can_move;
use rogue_core::pathfind::find_path;
use rogue_core::player::get_item;
use rogue_core::player::try_move_player;
use rogue_core::save_load_system::load_game;
use rogue_core::save_load_system::save_game;
use rogue_core::world::World;
use rogue_core::after_save_transition;
use rogue_core::main_menu_transition;
use rogue_core::MainMenuResult;
use rogue_core::MainMenuSelection;
use rogue_core::RunState;

fn named(world: &mut World, name: &str) -> Entity {
    let e = world.create();
    world.names.set(e.index, Some(Name { name: name.to_string() }));
    e
}

fn log_entry(log: &GameLog, i: usize) -> String {
    log.get(i).expect("log entry").clone()
}

#[test]
fn melee_resolves_to_damage_and_death() {
    let mut world = World::new();
    let attacker = named(&mut world, "orc");
    world.combat_stats.set(
        attacker.index,
        Some(CombatStats { max_hp: 16, hp: 16, defense: 1, power: 10 }),
    );
    world.melee_intents.set(attacker.index, None);
    let defender = named(&mut world, "rat");
    world.combat_stats.set(
        defender.index,
        Some(CombatStats { max_hp: 5, hp: 5, defense: 4, power: 2 }),
    );
    world.melee_intents.set(attacker.index, Some(WantsToMelee { target: defender }));

    let mut log = GameLog::new(16);
    MeleeCombatSystem::run(&mut world, &mut log);
    // damage = max(0, 10 - 4) = 6, appended to the accumulator
    match world.suffering.get(defender.index) {
        Some(s) => assert_eq!(s.amount, vec![6]),
        None => panic!("no damage accumulated"),
    }
    // the intent was consumed
    assert!(world.melee_intents.get(attacker.index).is_none());

    DamageSystem::run(&mut world);
    let hp = world.combat_stats.get(defender.index).expect("stats").hp;
    assert_eq!(hp, -1);
    assert!(world.suffering.get(defender.index).is_none());
    // the hit was logged with its amount
    assert_eq!(log.len(), 1);
    assert_eq!(log.get(0).expect("entry").clone(), "orc hits rat, for 6 hp.");

    delete_the_dead(&mut world, &mut log);
    world.maintain();
    assert!(!world.is_alive(defender));
    assert!(world.is_alive(attacker));
    assert_eq!(log.len(), 1);
}

#[test]
fn melee_miss_is_logged_and_consumed() {
    let mut world = World::new();
    let attacker = named(&mut world, "rat");
    world.combat_stats.set(
        attacker.index,
        Some(CombatStats { max_hp: 3, hp: 3, defense: 0, power: 2 }),
    );
    let defender = named(&mut world, "golem");
    world.combat_stats.set(
        defender.index,
        Some(CombatStats { max_hp: 20, hp: 20, defense: 5, power: 1 }),
    );
    world.melee_intents.set(attacker.index, Some(WantsToMelee { target: defender }));
    let mut log = GameLog::new(8);
    MeleeCombatSystem::run(&mut world, &mut log);
    // power 2 <= defense 5: no damage, but the miss is logged and the
    // intent is still consumed
    assert!(world.suffering.get(defender.index).is_none());
    assert!(world.melee_intents.get(attacker.index).is_none());
    assert_eq!(log.len(), 1);
    assert_eq!(log.get(0).expect("entry").clone(), "rat is unable to hurt golem");
}

#[test]
fn player_death_is_logged_not_destroyed() {
    let mut world = World::new();
    let player = named(&mut world, "hero");
    world.players.set(player.index, Some(Player {}));
    world.combat_stats.set(
        player.index,
        Some(CombatStats { max_hp: 10, hp: -1, defense: 0, power: 5 }),
    );
    let mut log = GameLog::new(16);
    delete_the_dead(&mut world, &mut log);
    world.maintain();
    assert!(world.is_alive(player));
    assert_eq!(log.len(), 1);
    assert_eq!(log_entry(&log, 0), "You are dead!");
    // the sweep is idempotent: running it again only logs once more and
    // still never destroys the player
    delete_the_dead(&mut world, &mut log);
    world.maintain();
    assert!(world.is_alive(player));
}

#[test]
fn dead_sweep_destroys_at_most_once() {
    let mut world = World::new();
    let rat = named(&mut world, "rat");
    world.combat_stats.set(rat.index, Some(CombatStats { max_hp: 3, hp: 0, defense: 0, power: 1 }));
    let mut log = GameLog::new(4);
    delete_the_dead(&mut world, &mut log);
    assert!(!world.is_alive(rat));
    // a second sweep over the already-dying entity changes nothing
    delete_the_dead(&mut world, &mut log);
    assert!(!world.is_alive(rat));
    world.maintain();
    assert!(!world.is_valid(rat));
    // and sweeping the maintained world is a no-op too
    delete_the_dead(&mut world, &mut log);
    assert_eq!(log.len(), 0);
}

#[test]
fn healing_potion_heals_and_is_consumed() {
    let mut world = World::new();
    let drinker = named(&mut world, "hero");
    world.combat_stats.set(
        drinker.index,
        Some(CombatStats { max_hp: 10, hp: 3, defense: 0, power: 1 }),
    );
    let potion = named(&mut world, "potion");
    world.consumables.set(potion.index, Some(Consumable {}));
    world.healing.set(potion.index, Some(ProvidesHealing { heal_amount: 8 }));
    world.use_intents.set(drinker.index, Some(WantsToUseItem { item: potion }));

    let mut log = GameLog::new(8);
    ItemUseSystem::run(&mut world, &mut log, drinker);
    // healing clamps at max_hp: 3 + 8 -> 10
    assert_eq!(world.combat_stats.get(drinker.index).expect("stats").hp, 10);
    // the drink is logged with its amount
    assert_eq!(log.len(), 1);
    assert_eq!(log.get(0).expect("entry").clone(), "You drink the potion, healing 8 hp");
    // the consumable is destroyed (deferred) and the intent consumed
    assert!(world.use_intents.get(drinker.index).is_none());
    assert!(!world.is_alive(potion));
    world.maintain();
    assert!(!world.is_valid(potion));
}

#[test]
fn pickup_and_drop_keep_exclusion() {
    let mut world = World::new();
    let hero = named(&mut world, "hero");
    world.players.set(hero.index, Some(Player {}));
    world.positions.set(hero.index, Some(Position { x: 4, y: 5 }));
    let sword = named(&mut world, "sword");
    world.items.set(sword.index, Some(Item {}));
    world.positions.set(sword.index, Some(Position { x: 4, y: 5 }));
    world.pickup_intents.set(hero.index, Some(WantsToPickupItem { collected_by: hero, item: sword }));

    let mut log = GameLog::new(8);
    ItemCollectionSystem::run(&mut world, &mut log, hero);
    assert!(world.positions.get(sword.index).is_none());
    assert_eq!(world.backpacks.get(sword.index).expect("backpack").owner, hero);
    assert!(world.pickup_intents.get(hero.index).is_none());
    assert_eq!(log.len(), 1);
    assert_eq!(log_entry(&log, 0), "You picked up sword");

    world.drop_intents.set(hero.index, Some(rogue_core::components::WantsToDropItem { item: sword }));
    ItemDropSystem::run(&mut world, &mut log, hero);
    let dropped = world.positions.get(sword.index).expect("position");
    assert_eq!((dropped.x, dropped.y), (4, 5));
    assert!(world.backpacks.get(sword.index).is_none());
    assert!(world.drop_intents.get(hero.index).is_none());
    assert_eq!(log.len(), 2);
    assert_eq!(log_entry(&log, 1), "hero dropped sword.");
}

#[test]
fn index_rebuild_is_fresh() {
    let mut map = GameMap::new(8, 8);
    let mut world = World::new();
    let blocker = named(&mut world, "boulder");
    world.positions.set(blocker.index, Some(Position { x: 3, y: 2 }));
    world.blockers.set(blocker.index, Some(BlocksTile {}));
    let bystander = named(&mut world, "leaf");
    world.positions.set(bystander.index, Some(Position { x: 3, y: 2 }));

    MapIndexingSystem::run(&mut map, &world);
    let idx = map.xy_idx(3, 2);
    assert!(map.blocked[idx]);
    assert_eq!(map.tile_content[idx], vec![blocker, bystander]);
    // a floor cell with nobody on it is not blocked and holds nothing
    let empty = map.xy_idx(5, 5);
    assert!(!map.blocked[empty]);
    assert!(map.tile_content[empty].is_empty());
    // walls stay blocked
    let wall = map.xy_idx(0, 0);
    assert!(map.blocked[wall]);
}

#[test]
fn pathfinding_returns_a_valid_walk() {
    let mut map = GameMap::new(10, 10);
    // a wall across most of the middle row forces a detour
    for x in 1..9 {
        let idx = map.xy_idx(x, 5);
        map.tiles[idx] = TileType::Wall;
    }
    let open = map.xy_idx(8, 5);
    map.tiles[open] = TileType::Floor;
    map.populate_blocked();
    let start = Point { x: 2, y: 2 };
    let goal = Point { x: 2, y: 8 };
    let path = find_path(&map, start, goal).expect("a path exists");
    assert!(path.len() > 1);
    assert_eq!((path[0].x, path[0].y), (2, 2));
    let last = path[path.len() - 1];
    assert_eq!((last.x, last.y), (2, 8));
    for w in path.windows(2) {
        let dx = (w[1].x - w[0].x).abs();
        let dy = (w[1].y - w[0].y).abs();
        assert!(dx <= 1 && dy <= 1 && (dx, dy) != (0, 0));
    }
    for p in &path[1..] {
        assert!(!map.blocked[map.xy_idx(p.x, p.y)]);
    }
}

#[test]
fn pathfinding_reports_no_path_through_walls() {
    let mut map = GameMap::new(9, 9);
    for x in 1..8 {
        let idx = map.xy_idx(x, 4);
        map.tiles[idx] = TileType::Wall;
    }
    map.populate_blocked();
    let r = find_path(&map, Point { x: 2, y: 2 }, Point { x: 2, y: 7 });
    assert!(r.is_none());
}

#[test]
fn monster_attacks_when_adjacent_and_steps_closer_otherwise() {
    let mut map = GameMap::new(12, 12);
    map.populate_blocked();
    let mut world = World::new();
    let player = named(&mut world, "hero");
    let player_pos = Point { x: 6, y: 6 };
    let near = named(&mut world, "goblin");
    world.monsters.set(near.index, Some(Monster {}));
    world.positions.set(near.index, Some(Position { x: 7, y: 6 }));
    world.viewsheds.set(
        near.index,
        Some(Viewshed { visible_tiles: vec![player_pos], range: 8, dirty: false }),
    );
    world.speeds.set(near.index, Some(MovementSpeed { min_delay_ms: 0, last_move_time: None }));
    let far = named(&mut world, "troll");
    world.monsters.set(far.index, Some(Monster {}));
    world.positions.set(far.index, Some(Position { x: 2, y: 6 }));
    world.viewsheds.set(
        far.index,
        Some(Viewshed { visible_tiles: vec![player_pos], range: 8, dirty: false }),
    );
    world.speeds.set(far.index, Some(MovementSpeed { min_delay_ms: 0, last_move_time: None }));

    MonsterAI::run(&mut world, &map, player_pos, player, 1000);
    // adjacent: attack, no move
    assert_eq!(world.melee_intents.get(near.index).expect("intent").target, player);
    let near_pos = world.positions.get(near.index).expect("position");
    assert_eq!((near_pos.x, near_pos.y), (7, 6));
    // distant: one step along a path, viewshed dirtied
    assert!(world.melee_intents.get(far.index).is_none());
    let far_pos = world.positions.get(far.index).expect("position");
    assert_ne!((far_pos.x, far_pos.y), (2, 6));
    assert!((far_pos.x - 2).abs() <= 1 && (far_pos.y - 6).abs() <= 1);
    assert!(world.viewsheds.get(far.index).expect("viewshed").dirty);
}

#[test]
fn player_move_attacks_first_occupant() {
    let mut map = GameMap::new(8, 8);
    map.populate_blocked();
    let mut world = World::new();
    let hero = named(&mut world, "hero");
    world.players.set(hero.index, Some(Player {}));
    world.positions.set(hero.index, Some(Position { x: 3, y: 3 }));
    world.viewsheds.set(
        hero.index,
        Some(Viewshed { visible_tiles: vec![], range: 8, dirty: false }),
    );
    let rat = named(&mut world, "rat");
    world.combat_stats.set(rat.index, Some(CombatStats { max_hp: 3, hp: 3, defense: 0, power: 1 }));
    world.positions.set(rat.index, Some(Position { x: 4, y: 3 }));
    MapIndexingSystem::run(&mut map, &world);

    let mut ppos = Point { x: 3, y: 3 };
    try_move_player(1, 0, &mut world, &map, &mut ppos, hero);
    // the occupant with combat stats is attacked instead of stepped on
    assert_eq!(world.melee_intents.get(hero.index).expect("intent").target, rat);
    let hp = world.positions.get(hero.index).expect("position");
    assert_eq!((hp.x, hp.y), (3, 3));

    // moving the other way succeeds and dirties the viewshed
    world.melee_intents.set(hero.index, None);
    try_move_player(-1, 0, &mut world, &map, &mut ppos, hero);
    let hp = world.positions.get(hero.index).expect("position");
    assert_eq!((hp.x, hp.y), (2, 3));
    assert_eq!((ppos.x, ppos.y), (2, 3));
    assert!(world.viewsheds.get(hero.index).expect("viewshed").dirty);

    // moving into a wall does nothing
    try_move_player(-2, 0, &mut world, &map, &mut ppos, hero);
    let hp = world.positions.get(hero.index).expect("position");
    assert_eq!((hp.x, hp.y), (2, 3));
}

#[test]
fn get_item_picks_the_item_underfoot_or_logs() {
    let mut map = GameMap::new(8, 8);
    let mut world = World::new();
    let hero = named(&mut world, "hero");
    world.players.set(hero.index, Some(Player {}));
    world.positions.set(hero.index, Some(Position { x: 2, y: 2 }));
    let mut log = GameLog::new(8);
    MapIndexingSystem::run(&mut map, &world);
    get_item(&mut world, &map, &mut log, hero, Point { x: 2, y: 2 });
    assert!(world.pickup_intents.get(hero.index).is_none());
    assert_eq!(log_entry(&log, 0), "There is nothing here to pick up.");

    let coin = named(&mut world, "coin");
    world.items.set(coin.index, Some(Item {}));
    world.positions.set(coin.index, Some(Position { x: 2, y: 2 }));
    MapIndexingSystem::run(&mut map, &world);
    get_item(&mut world, &map, &mut log, hero, Point { x: 2, y: 2 });
    let intent = world.pickup_intents.get(hero.index).expect("intent");
    assert_eq!(intent.item, coin);
    assert_eq!(intent.collected_by, hero);
}

#[test]
fn full_turn_clears_every_intent() {
    let mut map = GameMap::new(12, 12);
    map.populate_blocked();
    let mut world = World::new();
    let hero = named(&mut world, "hero");
    world.players.set(hero.index, Some(Player {}));
    world.positions.set(hero.index, Some(Position { x: 6, y: 6 }));
    world.viewsheds.set(
        hero.index,
        Some(Viewshed { visible_tiles: vec![], range: 8, dirty: true }),
    );
    world.combat_stats.set(hero.index, Some(CombatStats { max_hp: 30, hp: 30, defense: 2, power: 5 }));
    let goblin = named(&mut world, "goblin");
    world.monsters.set(goblin.index, Some(Monster {}));
    world.positions.set(goblin.index, Some(Position { x: 7, y: 6 }));
    world.combat_stats.set(goblin.index, Some(CombatStats { max_hp: 8, hp: 8, defense: 1, power: 3 }));
    world.viewsheds.set(
        goblin.index,
        Some(Viewshed { visible_tiles: vec![Point { x: 6, y: 6 }], range: 8, dirty: false }),
    );
    world.speeds.set(goblin.index, Some(MovementSpeed { min_delay_ms: 0, last_move_time: None }));
    world.melee_intents.set(hero.index, Some(WantsToMelee { target: goblin }));

    let mut gs = rogue_core::State {
        ecs: world,
        map,
        log: GameLog::new(32),
        run_state: rogue_core::RunState::Running,
        player_entity: hero,
        player_pos: Point { x: 6, y: 6 },
        client: rogue_core::Client::default(),
    };
    gs.run_systems(Vec::new(), 1000);
    for i in 0..2usize {
        assert!(gs.ecs.melee_intents.get(i).is_none());
        assert!(gs.ecs.pickup_intents.get(i).is_none());
        assert!(gs.ecs.use_intents.get(i).is_none());
        assert!(gs.ecs.drop_intents.get(i).is_none());
    }
    // both sides exchanged blows: hero dealt 5 - 1 = 4, goblin dealt 3 - 2 = 1
    assert_eq!(gs.ecs.combat_stats.get(goblin.index).expect("stats").hp, 4);
    assert_eq!(gs.ecs.combat_stats.get(hero.index).expect("stats").hp, 29);
}

#[test]
fn save_and_load_keep_references() {
    let mut world = World::new();
    let hero = named(&mut world, "hero");
    world.players.set(hero.index, Some(Player {}));
    world.combat_stats.set(hero.index, Some(CombatStats { max_hp: 30, hp: 21, defense: 2, power: 5 }));
    world.markers.set(hero.index, Some(SerializeMe {}));
    let sword = named(&mut world, "sword");
    world.items.set(sword.index, Some(Item {}));
    world.backpacks.set(sword.index, Some(InBackpack { owner: hero }));
    world.markers.set(sword.index, Some(SerializeMe {}));
    let goblin = named(&mut world, "goblin");
    world.combat_stats.set(goblin.index, Some(CombatStats { max_hp: 8, hp: 8, defense: 1, power: 3 }));
    world.melee_intents.set(goblin.index, Some(WantsToMelee { target: hero }));
    world.markers.set(goblin.index, Some(SerializeMe {}));

    let map = GameMap::new(6, 6);
    let sd = save_game(&mut world, &map);
    assert_eq!(sd.names.len(), 3);
    assert_eq!(sd.helpers.len(), 1);

    let loaded = load_game(&sd).expect("load succeeds");
    // ids were assigned in slot order: hero 0, sword 1, goblin 2
    let new_hero = Entity { index: 0, gen: 0 };
    assert!(loaded.world.is_alive(new_hero));
    assert_eq!(loaded.world.names.get(0).expect("name").name, "hero");
    let stats = loaded.world.combat_stats.get(0).expect("stats");
    assert_eq!((stats.max_hp, stats.hp, stats.defense, stats.power), (30, 21, 2, 5));
    // the backpack edge and the melee intent resolve to the new hero handle
    assert_eq!(loaded.world.backpacks.get(1).expect("backpack").owner, new_hero);
    assert_eq!(loaded.world.melee_intents.get(2).expect("intent").target, new_hero);
    assert_eq!(loaded.world.names.get(1).expect("name").name, "sword");
    // the map singleton came back with the same shape
    assert_eq!(loaded.map.width, 6);
    assert_eq!(loaded.map.height, 6);
    assert_eq!(loaded.map.tiles, map.tiles);
    // the player is findable again
    let p = find_player(&loaded.world).expect("player");
    assert_eq!(p, new_hero);
}

#[test]
fn log_evicts_oldest_at_capacity() {
    let mut log = GameLog::new(2);
    log.push("first".to_string());
    log.push("second".to_string());
    log.push("third".to_string());
    assert_eq!(log.len(), 2);
    assert_eq!(log_entry(&log, 0), "second");
    assert_eq!(log_entry(&log, 1), "third");
    assert!(log.get(2).is_none());
}

#[test]
fn key_gating_waits_out_delays() {
    let mut key = KeyPress::new(100, 500);
    assert_eq!(key.state, KeyState::RELEASED);
    // the first press registers at once
    assert!(can_press(&mut key, 1000));
    assert_eq!(key.state, KeyState::PRESSED);
    // held: blocked until the repeat delay has elapsed
    assert!(!can_press(&mut key, 1100));
    assert!(can_press(&mut key, 1500));
    assert_eq!(key.state, KeyState::HOLD);
    // then only the minimum delay gates
    assert!(!can_press(&mut key, 1550));
    assert!(can_press(&mut key, 1600));
}

#[test]
fn movement_gating_waits_out_the_delay() {
    let mut speed = MovementSpeed { min_delay_ms: 100, last_move_time: None };
    assert!(can_move(&mut speed, 1000));
    assert_eq!(speed.last_move_time, Some(1000));
    assert!(!can_move(&mut speed, 1050));
    assert_eq!(speed.last_move_time, Some(1000));
    assert!(can_move(&mut speed, 1100));
    assert_eq!(speed.last_move_time, Some(1100));
}

#[test]
fn inventory_and_tooltip_queries() {
    let mut map = GameMap::new(8, 8);
    let mut world = World::new();
    let hero = named(&mut world, "hero");
    world.players.set(hero.index, Some(Player {}));
    world.positions.set(hero.index, Some(Position { x: 2, y: 2 }));
    let sword = named(&mut world, "sword");
    world.items.set(sword.index, Some(Item {}));
    world.backpacks.set(sword.index, Some(InBackpack { owner: hero }));
    let inv = player_inventory(&world, hero);
    assert_eq!(inv, vec![sword]);

    let idx = map.xy_idx(2, 2);
    map.visible_tiles[idx] = true;
    let tips = tooltip_names(&world, &map, 2, 2);
    assert_eq!(tips, vec!["hero".to_string()]);
    let none = tooltip_names(&world, &map, 3, 3);
    assert!(none.is_empty());
}

#[test]
fn menu_transitions_follow_the_state_machine() {
    let (s, quit) = main_menu_transition(
        RunState::MainMenu { menu_selection: MainMenuSelection::NewGame },
        MainMenuResult::NoSelection { selected: MainMenuSelection::LoadGame },
    );
    assert_eq!(s, RunState::MainMenu { menu_selection: MainMenuSelection::LoadGame });
    assert!(!quit);
    let (_, quit) = main_menu_transition(
        RunState::MainMenu { menu_selection: MainMenuSelection::Quit },
        MainMenuResult::Selected { selected: MainMenuSelection::Quit },
    );
    assert!(quit);
    assert_eq!(
        after_save_transition(),
        RunState::MainMenu { menu_selection: MainMenuSelection::LoadGame },
    );
}

#[test]
fn damage_accumulates_over_several_attackers() {
    let mut world = World::new();
    let defender = named(&mut world, "target");
    world.combat_stats.set(
        defender.index,
        Some(CombatStats { max_hp: 40, hp: 40, defense: 2, power: 0 }),
    );
    for power in [5, 7, 9] {
        let a = named(&mut world, "attacker");
        world.combat_stats.set(a.index, Some(CombatStats { max_hp: 5, hp: 5, defense: 0, power }));
        world.melee_intents.set(a.index, Some(WantsToMelee { target: defender }));
    }
    let mut log = GameLog::new(16);
    MeleeCombatSystem::run(&mut world, &mut log);
    let amounts = world.suffering.get(defender.index).expect("accumulator").amount.clone();
    assert_eq!(amounts, vec![3, 5, 7]);
    DamageSystem::run(&mut world);
    // 40 - (3 + 5 + 7) = 25, applied in one mutation
    assert_eq!(world.combat_stats.get(defender.index).expect("stats").hp, 25);
    assert!(world.suffering.get(defender.index).is_none());
}

#[test]
fn suffer_damage_appends_to_an_existing_accumulator() {
    let mut world = World::new();
    let victim = world.create();
    SufferDamage::new_damage(&mut world.suffering, victim, 4);
    SufferDamage::new_damage(&mut world.suffering, victim, 6);
    assert_eq!(world.suffering.get(victim.index).expect("accumulator").amount, vec![4, 6]);
}
