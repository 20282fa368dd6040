use canum::config::{
    return_1, return_750, return_default_size, BossDetails, CharmCost, ShopDetails, ShopItem, ShopItemDetails,
    SpriteAtlas, StageDetails, StringList, Values,
};
use canum::entity::Entity;
use canum::names::{NameMap, NameSet};
use canum::progress::{
    all_defeated, get_marks, items_on_sale, outline_style, price_label, shop_item_text_keys, Achievements,
    BossProgress, OutlineStyle, Progress, PurchaseOutcome,
};
use canum::session::{
    closed_locks, cutscene_ready, enter_shop_cutscene, in_stable_state, initial_weapons, is_lobby, leave_victory,
    music_to_fade, on_player_fail, on_player_win, quit_shop, record_lobby, resets_hit_tracking,
    schedule_pure_color_cutscenes, select_lobby, selected_health, session_to_set_up, should_write_save,
    window_title_key, AnyHits, CutsceneNext, DefeatToWin, EnterShop, Fight, GameState, HealthKind,
    InitializationComplete, LobbyName, PostStartSessionSynchronizer, SetupStep, StartSession,
};

fn set(names: &[&str]) -> NameSet {
    let mut s = NameSet::new();
    for n in names {
        s.insert(n.to_string());
    }
    s
}

fn progress() -> Progress {
    Progress {
        coins: 50,
        boss_progress: NameMap::new(),
        completed_stages: NameSet::new(),
        current_lobby: "Gate".to_owned(),
        selected_weapons: vec!["A_Filed".to_owned(), "B_Spread".to_owned(), "C".to_owned()],
        weapon_slots: 2,
        selected_health: "BasicHp".to_owned(),
        selected_effects: NameSet::new(),
        achievements: Achievements { unlocked: NameSet::new(), counters: NameMap::new() },
        unlocked_dash: false,
        owned_items: NameSet::new(),
    }
}

#[test]
fn defaults_of_sprite_atlases() {
    assert_eq!(return_default_size(), (32, 32));
    assert_eq!(return_1(), 1);
    assert_eq!(return_750(), 750);
    let a = SpriteAtlas::with_defaults("p".to_owned());
    assert_eq!((a.offset, a.size, a.count, a.interval), ((0, 0), (32, 32), 1, 750));
}

#[test]
fn string_lists_join() {
    assert_eq!(StringList::new("ab".to_owned()).into_inner(), "ab");
    let l = StringList::from_pieces(&vec!["Hello, ".to_owned(), "world".to_owned()]);
    assert_eq!(l.0, "Hello, world");
    assert_eq!(StringList::from_pieces(&vec![]).0, "");
}

#[test]
fn charm_costs() {
    let c = CharmCost::parse("DG").unwrap();
    assert!(c.defensive() && !c.offensive() && c.general());
    assert_eq!(c.0, 5);
    assert_eq!(CharmCost::parse("").unwrap().0, 0);
    assert_eq!(CharmCost::parse("OOD").unwrap().0, 3);
    assert_eq!(CharmCost::parse("DxO"), Err('x'));
}

#[test]
fn boss_gains_merge() {
    let mut a = BossDetails::new();
    a.gains.insert("Completed".to_owned(), 10);
    a.gains.insert("NoHits".to_owned(), 5);
    let mut b = BossDetails::new();
    b.gains.insert("NoHits".to_owned(), 7);
    a.merge(b);
    assert_eq!(a.gains.get("Completed"), Some(&10));
    assert_eq!(a.gains.get("NoHits"), Some(&7));
}

#[test]
fn values_merge_keeps_shops() {
    let mut v = Values::new();
    let mut loaded = Values::new();
    loaded.child_paths.push("more.ron".to_owned());
    loaded.shop.insert("Shop1".to_owned(), ShopDetails { items: vec![] });
    let mut boss = BossDetails::new();
    boss.gains.insert("Completed".to_owned(), 3);
    loaded.boss.insert("Wcat".to_owned(), boss);
    let children = v.merge(loaded);
    assert_eq!(children, vec!["more.ron".to_owned()]);
    assert!(v.shop.get("Shop1").is_none());
    assert_eq!(v.boss.get("Wcat").unwrap().gains.get("Completed"), Some(&3));
}

#[test]
fn shop_names() {
    assert_eq!(ShopItem::Charm("Exo".to_owned()).to_name(), "Charm_Exo");
    assert_eq!(ShopItem::Weapon("A".to_owned()).to_name(), "Weapon_A");
    let (short, desc) = shop_item_text_keys(&ShopItem::Weapon("A".to_owned()));
    assert_eq!(short, "Weapon_A_Short");
    assert_eq!(desc, "Weapon_A_ShopDesc");
    assert_eq!(price_label("Hp", 30), "Hp (30G)");
    assert_eq!(price_label("Odd", -4), "Odd (-4G)");
    assert_eq!(price_label("Min", i32::MIN), "Min (-2147483648G)");
}

#[test]
fn tasks_marks_and_coins() {
    let mut p = progress();
    let done = p.update_tasks("Wcat", false);
    assert!(done.tasks.contains("Completed") && done.tasks.contains("NoHits"));
    assert_eq!(done.fight, "Wcat");
    let again = p.update_tasks("Wcat", true);
    assert_eq!(again.tasks.len(), 0);
    assert_eq!(get_marks(&p, "Wcat"), vec!["Mark_Completed".to_owned(), "Mark_NoHits".to_owned()]);
    assert!(get_marks(&p, "Other").is_empty());
    let mut bosses = NameMap::new();
    let mut details = BossDetails::new();
    details.gains.insert("Completed".to_owned(), 10);
    details.gains.insert("NoHits".to_owned(), 20);
    bosses.insert("Wcat".to_owned(), details);
    p.gain_coins(&bosses, &done);
    assert_eq!(p.coins, 80);
}

#[test]
fn stages_complete_when_all_bosses_defeated() {
    let mut p = progress();
    let mut stages = NameMap::new();
    stages.insert(
        "Stage1".to_owned(),
        StageDetails { unlock_prereqs: NameSet::new(), complete_prereqs: set(&["A", "B"]), lock_prereqs: vec![set(&["A"]), set(&["B"])] },
    );
    p.update_tasks("A", true);
    p.update_stage(&stages, "A");
    assert!(!p.completed_stages.contains("Stage1"));
    assert!(all_defeated(&p.boss_progress, &set(&["A"])));
    assert!(!all_defeated(&p.boss_progress, &set(&["A", "B"])));
    assert_eq!(closed_locks(&p, stages.get("Stage1").unwrap()), vec![false, true]);
    p.update_tasks("B", true);
    p.update_stage(&stages, "B");
    assert!(p.completed_stages.contains("Stage1"));
    assert_eq!(closed_locks(&p, stages.get("Stage1").unwrap()), vec![false, false]);
}

#[test]
fn purchases() {
    let mut p = progress();
    let item = ShopItem::Charm("Exo".to_owned());
    assert_eq!(p.purchase(&item, 60, true), PurchaseOutcome::NotEnough);
    assert_eq!(p.purchase(&item, 20, false), PurchaseOutcome::StandGone);
    assert_eq!(p.coins, 50);
    assert_eq!(p.purchase(&item, 20, true), PurchaseOutcome::Purchased);
    assert_eq!(p.coins, 30);
    assert!(p.has_shop_item(&item));
    assert_eq!(p.purchase(&item, 20, true), PurchaseOutcome::AlreadyOwned);
    assert_eq!(p.coins, 30);
    let shop = ShopDetails {
        items: vec![
            ShopItemDetails { price: 1, item: item.clone() },
            ShopItemDetails { price: 2, item: ShopItem::Weapon("A".to_owned()) },
        ],
    };
    assert_eq!(items_on_sale(&p, &shop), vec![1]);
}

#[test]
fn outlines() {
    assert_eq!(outline_style(false, 0, 10), OutlineStyle::Inactive);
    assert_eq!(outline_style(true, 10, 10), OutlineStyle::Active);
    assert_eq!(outline_style(true, 9, 10), OutlineStyle::NotEnough);
}

#[test]
fn setup_runs_in_order() {
    let mut s = PostStartSessionSynchronizer::default();
    let mut done = InitializationComplete(false);
    assert_eq!(s.step(&mut done, false), None);
    assert_eq!(s.step(&mut done, true), None);
    assert_eq!(s.step(&mut done, true), Some(SetupStep::Middle));
    assert_eq!(s.step(&mut done, true), Some(SetupStep::Action));
    assert_eq!(s.step(&mut done, true), Some(SetupStep::Last));
    assert!(!done.0);
    assert_eq!(s.step(&mut done, true), None);
    assert!(done.0);
    assert_eq!(s.step(&mut done, true), None);
    assert!(in_stable_state(&done, &GameState::Play, &GameState::Play));
    assert!(!in_stable_state(&done, &GameState::Cutscene, &GameState::Play));
    assert!(!in_stable_state(&InitializationComplete(false), &GameState::Play, &GameState::Play));
}

#[test]
fn sessions_and_cutscenes() {
    let last = session_to_set_up(vec![StartSession { fight: "A".to_owned() }, StartSession { fight: "B".to_owned() }]);
    assert_eq!(last.unwrap().fight, "B");
    assert!(session_to_set_up(vec![]).is_none());
    let p = progress();
    assert_eq!(initial_weapons(&p), vec![None, None]);
    assert_eq!(selected_health(&p), (HealthKind::BasicHp, true));
    assert_eq!(select_lobby("LobbySelect", &p).unwrap().fight, "Gate");
    assert!(select_lobby("Wcat", &p).is_none());
    assert!(resets_hit_tracking("Wcat"));
    assert!(!resets_hit_tracking("_Between"));
    let mut hits = AnyHits::default();
    hits.record_hit();
    assert!(hits.0);
    let next = CutsceneNext::new(StartSession { fight: "X".to_owned() });
    assert_eq!(cutscene_ready(Some(&next), 0).unwrap(), "X");
    assert!(cutscene_ready(Some(&next), 1).is_none());
    assert!(cutscene_ready(None, 0).is_none());
    assert!(on_player_fail(GameState::Cutscene).is_none());
    assert_eq!(on_player_fail(GameState::Play).unwrap().event.fight, "LobbySelect");
    let (fight, next) = on_player_win(GameState::Play, &Fight("Wcat".to_owned())).unwrap();
    assert_eq!(fight, "Wcat");
    assert_eq!(next.event.fight, "Victory");
    assert!(on_player_win(GameState::Cutscene, &Fight("Wcat".to_owned())).is_none());
    assert_eq!(leave_victory().fight, "LobbySelect");
    let mut d = DefeatToWin::default();
    assert!(!d.wins_on_removal(GameState::Play));
    d.set_defeated();
    assert!(d.wins_on_removal(GameState::Play));
    assert!(!d.wins_on_removal(GameState::Cutscene));
    assert_eq!(schedule_pure_color_cutscenes(GameState::Play, 3), (vec![true, false, false], GameState::Cutscene));
    assert_eq!(schedule_pure_color_cutscenes(GameState::Cutscene, 2), (vec![false, false], GameState::Cutscene));
    assert_eq!(schedule_pure_color_cutscenes(GameState::Play, 0), (vec![], GameState::Play));
    assert_eq!(music_to_fade(&vec![false, true, false]), vec![true, false, true]);
    assert_eq!(music_to_fade(&vec![false, false]), vec![false, false]);
}

#[test]
fn lobby_rules() {
    assert!(is_lobby("Gate"));
    assert!(!is_lobby("Wcat"));
    assert_eq!(window_title_key(&LobbyName("Gate".to_owned())), "Gate_WindowTitle");
    assert!(should_write_save(true, true, false, GameState::Play, true));
    assert!(should_write_save(true, true, true, GameState::Cutscene, false));
    assert!(!should_write_save(true, true, true, GameState::Play, false));
    assert!(!should_write_save(false, true, true, GameState::Cutscene, true));
    assert!(!should_write_save(true, false, true, GameState::Cutscene, true));
    let mut p = progress();
    record_lobby(&mut p, &LobbyName("Cave".to_owned()));
    assert_eq!(p.current_lobby, "Cave");
    assert_eq!(p.coins, 50);
}

#[test]
fn shop_transitions() {
    let c = enter_shop_cutscene(&EnterShop { fight: "Shop1".to_owned() });
    assert_eq!(c.fight, "Shop1");
    assert_eq!(c.transition.duration, 800_000_000);
    assert!(c.transition.remove_self);
    let q = quit_shop(false, true, false).unwrap();
    assert_eq!(q.fight, "LobbySelect");
    assert!(quit_shop(false, false, false).is_none());
}

#[test]
fn defeated_bosses_open_locks() {
    let mut p = progress();
    let mut bp = BossProgress::new();
    bp.defeated = true;
    p.boss_progress.insert("A".to_owned(), bp);
    assert!(all_defeated(&p.boss_progress, &set(&[])));
    assert!(all_defeated(&p.boss_progress, &set(&["A"])));
    let _ = Entity(0);
}
