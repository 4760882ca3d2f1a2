use rs_type::game::Game;
use rs_type::geometry::Point;
use rs_type::manager::{Manager, Mode};
use rs_type::objects::Enemy;
use rs_type::paint::Paint;
use rs_type::ui::{MenuEntry, UI};
use rs_type::wording::CodeDict;
use rs_type::{Key, MouseButton, States};

fn enemy(word: &str) -> Enemy {
    Enemy { pos_x: 0, pos_y: 0, speed: 50, word: word.chars().collect(), font_size: 30 }
}

#[test]
fn typing_promotes_then_destroys_an_enemy() {
    let mut g: Game<CodeDict> = Game::new("ada".to_owned(), CodeDict, 30, 0);
    g.enemies.push(enemy("cat"));
    g.text_input_event('c');
    assert!(g.enemies.is_empty());
    let word: String = g.target.as_ref().unwrap().word.iter().collect();
    assert_eq!(word, "at");
    g.text_input_event('a');
    let word: String = g.target.as_ref().unwrap().word.iter().collect();
    assert_eq!(word, "t");
    g.text_input_event('t');
    assert!(g.target.is_none());
    assert!(g.enemies.is_empty());
}

#[test]
fn typing_ignores_characters_that_match_nothing() {
    let mut g: Game<CodeDict> = Game::new("ada".to_owned(), CodeDict, 30, 0);
    g.enemies.push(enemy("cat"));
    g.text_input_event('x');
    assert_eq!(g.enemies.len(), 1);
    assert!(g.target.is_none());
    g.text_input_event('c');
    g.text_input_event('q');
    let word: String = g.target.as_ref().unwrap().word.iter().collect();
    assert_eq!(word, "at");
}

#[test]
fn typing_picks_the_first_matching_enemy() {
    let mut g: Game<CodeDict> = Game::new("ada".to_owned(), CodeDict, 30, 0);
    g.enemies.push(enemy("dog"));
    g.enemies.push(enemy("dot"));
    g.text_input_event('d');
    assert_eq!(g.enemies.len(), 1);
    let left: String = g.enemies[0].word.iter().collect();
    assert_eq!(left, "dot");
    let word: String = g.target.as_ref().unwrap().word.iter().collect();
    assert_eq!(word, "og");
}

#[test]
fn update_spawns_advances_levels_and_finishes() {
    let mut g: Game<CodeDict> = Game::new("ada".to_owned(), CodeDict, 30, 0);
    g.update(1000, 5);
    assert_eq!(g.enemies.len(), 1);
    assert_eq!(g.sequence, 1);
    assert_eq!(g.last_spawn, 5);
    let word: String = g.enemies[0].word.iter().collect();
    assert_eq!(word, "jj");
    assert!(g.enemies[0].pos_x >= 100 && g.enemies[0].pos_x < 900);

    g.enemies.clear();
    g.sequence = 10;
    g.update(1000, 6);
    assert_eq!(g.level, 1);
    assert_eq!(g.sequence, 0);

    g.level = 3;
    g.update(1000, 7);
    assert_eq!(g.goto_state, Some(States::Victory));
}

#[test]
fn game_escape_requests_pause() {
    let mut g: Game<CodeDict> = Game::new("ada".to_owned(), CodeDict, 30, 0);
    g.key_down_event(Key::Q);
    assert_eq!(g.goto_state, None);
    g.key_down_event(Key::Escape);
    assert_eq!(g.goto_state, Some(States::Pause));
    assert_eq!(g.next_state(), Some(States::Pause));
    assert_eq!(g.next_state(), None);
}

#[test]
fn menu_first_matching_transition_wins() {
    let mut ui = UI::new(vec![
        MenuEntry::VSpace(120),
        MenuEntry::Message(60, "title".to_owned()),
        MenuEntry::Transition(40, "[S]tart".to_owned(), Key::S, States::Game),
        MenuEntry::Transition(40, "[S]econd".to_owned(), Key::S, States::Quit),
        MenuEntry::Transition(40, "[Esc] quit".to_owned(), Key::Escape, States::Quit),
    ]);
    ui.key_down_event(Key::N);
    assert_eq!(ui.goto_state, None);
    ui.key_down_event(Key::S);
    assert_eq!(ui.goto_state, Some(States::Game));
    // A menu intercepts quitting: it signals the process must not quit.
    assert!(ui.quit_event());
}

#[test]
fn menu_layout_advances_by_declared_heights() {
    let ui = UI::new(vec![
        MenuEntry::VSpace(120),
        MenuEntry::Message(60, "title".to_owned()),
        MenuEntry::Transition(40, "start".to_owned(), Key::S, States::Game),
    ]);
    assert_eq!(ui.layout_tops(), vec![0, 120, 180]);
}

#[test]
fn manager_switches_mode_on_menu_transition() {
    let menu = UI::new(vec![MenuEntry::Transition(
        40,
        "[S]tart".to_owned(),
        Key::S,
        States::Game,
    )]);
    let game: Game<CodeDict> = Game::new("ada".to_owned(), CodeDict, 30, 0);
    let mut mgr = Manager::new(
        States::StartScreen,
        vec![
            (States::StartScreen, Mode::Menu(menu)),
            (States::Game, Mode::Play(game)),
            (States::Quit, Mode::Quitting(rs_type::ui::Quit)),
        ],
        60000,
        80000,
        "255 0,0 1,0 1,1\n",
    )
    .expect("well-formed background");
    assert_eq!(mgr.stars.len(), 60);
    for s in mgr.stars.iter() {
        assert!(0 <= s.x && s.x < 60000 && 0 <= s.y && s.y < 80000);
    }
    assert_eq!(mgr.planets.triangles[0][1], rs_type::geometry::Point { x: 60000, y: 0 });
    let stars_before = mgr.stars.clone();
    mgr.key_down_event(Key::N, 60000, 80000);
    assert_eq!(mgr.current_state, States::StartScreen);
    // While a menu is shown, a quit request is intercepted.
    assert!(mgr.quit_event());
    mgr.key_down_event(Key::S, 60000, 80000);
    assert_eq!(mgr.current_state, States::Game);
    let quit = mgr.update(1000, 0);
    assert!(!quit);
    // Outside a menu, a quit request is let through.
    assert!(!mgr.quit_event());
    // The shared background is independent of the mode and never reset.
    assert_eq!(mgr.stars, stars_before);
}

fn fresh_editor() -> Paint {
    Paint::new(
        0,
        vec!["#ff0000".to_owned(), "#00ff00".to_owned()],
        "out.txt".to_owned(),
        "",
        true,
        true,
        60000,
        80000,
    )
    .expect("empty data is a valid store")
}

#[test]
fn three_left_clicks_commit_one_triangle() {
    let mut p = fresh_editor();
    p.mouse_button_down_event(MouseButton::Left, 10000, 10000);
    p.mouse_button_down_event(MouseButton::Right, 20000, 20000);
    assert_eq!(p.poly.len(), 1);
    p.mouse_button_down_event(MouseButton::Left, 30000, 10000);
    assert_eq!(p.poly.len(), 2);
    p.mouse_button_down_event(MouseButton::Left, 20000, 30000);
    assert_eq!(p.poly.len(), 0);
    assert_eq!(
        p.ct.triangles[0],
        vec![
            Point { x: 10000, y: 10000 },
            Point { x: 30000, y: 10000 },
            Point { x: 20000, y: 30000 },
        ]
    );
    assert_eq!(p.ct.triangles[1].len(), 0);
}

#[test]
fn editor_snaps_to_a_near_point_and_keys_work() {
    let mut p = fresh_editor();
    p.mouse_button_down_event(MouseButton::Left, 10000, 10000);
    p.mouse_button_down_event(MouseButton::Left, 30000, 10000);
    p.mouse_button_down_event(MouseButton::Left, 20000, 30000);
    // A click just off the first corner lands on it while snapping is on.
    p.mouse_button_down_event(MouseButton::Left, 10000 + 500, 10000);
    assert_eq!(p.poly[0], Point { x: 10000, y: 10000 });

    let saved = p.key_down_event(Key::Escape, 60000, 80000);
    assert!(saved.is_none());
    assert_eq!(p.poly.len(), 0);

    p.key_down_event(Key::N, 60000, 80000);
    assert_eq!(p.cur_color, 1);
    p.key_down_event(Key::N, 60000, 80000);
    assert_eq!(p.cur_color, 0);

    p.key_down_event(Key::S, 60000, 80000);
    assert!(!p.use_snap);
    p.key_down_event(Key::W, 60000, 80000);
    assert!(p.wireframe);

    p.key_down_event(Key::Equals, 60000, 80000);
    assert_eq!(p.snap_dist, 1001);
    p.key_down_event(Key::Subtract, 60000, 80000);
    assert_eq!(p.snap_dist, 1000);

    p.key_down_event(Key::L, 60000, 80000);
    assert_eq!(p.ct.triangles[0][0], Point { x: 11000, y: 10000 });
    p.key_down_event(Key::H, 60000, 80000);
    assert_eq!(p.ct.triangles[0][0], Point { x: 10000, y: 10000 });

    p.key_down_event(Key::I, 60000, 80000);
    assert_eq!(p.ct.triangles[0][0], Point { x: 12500, y: 12500 });
    p.key_down_event(Key::O, 60000, 80000);
    assert_eq!(p.ct.triangles[0][0], Point { x: 10000, y: 10000 });
}

#[test]
fn editor_normalized_save_and_load_keep_sub_pixel_precision() {
    let mut p = Paint::new(
        0,
        vec!["#ff0000".to_owned()],
        "out.txt".to_owned(),
        "",
        true,
        false,
        60000,
        80000,
    )
    .unwrap();
    p.mouse_button_down_event(MouseButton::Left, 0, 0);
    p.mouse_button_down_event(MouseButton::Left, 60000, 0);
    p.mouse_button_down_event(MouseButton::Left, 30000, 40000);
    let saved = p.key_down_event(Key::Escape, 60000, 80000).expect("save on escape");
    assert_eq!(saved, "16711680 0,0 1,0 0.5,0.5\n");

    let p2 = Paint::new(
        0,
        vec!["#ff0000".to_owned()],
        "out.txt".to_owned(),
        &saved,
        false,
        false,
        60000,
        80000,
    )
    .unwrap();
    assert_eq!(
        p2.ct.triangles[0],
        vec![Point { x: 0, y: 0 }, Point { x: 60000, y: 0 }, Point { x: 30000, y: 40000 }]
    );
}

#[test]
fn editor_deletes_triangle_under_cursor_and_saves() {
    let mut p = fresh_editor();
    p.mouse_button_down_event(MouseButton::Left, 0, 0);
    p.mouse_button_down_event(MouseButton::Left, 9000, 0);
    p.mouse_button_down_event(MouseButton::Left, 0, 9000);
    p.mouse_motion_event(2000, 2000);
    p.key_down_event(Key::X, 60000, 80000);
    assert_eq!(p.ct.triangles[0].len(), 0);

    p.mouse_button_down_event(MouseButton::Left, 0, 0);
    p.mouse_button_down_event(MouseButton::Left, 9000, 0);
    p.mouse_button_down_event(MouseButton::Left, 0, 9000);
    let saved = p.key_down_event(Key::Escape, 60000, 80000).expect("save on escape");
    assert_eq!(saved, "16711680 0,0 90,0 0,90\n65280 \n");
}
