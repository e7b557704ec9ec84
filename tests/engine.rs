use fortune_loop::{
    chance_delta, generate_board, roll_die, District, Game, PlayerKind, PlayerState, Suit, SuitSet,
    Tile, TileKind,
};

fn tile(index: usize, kind: TileKind) -> Tile {
    Tile { index, col: 0, row: 0, kind }
}

fn game_with(board: Vec<Tile>, players: Vec<PlayerState>) -> Game {
    Game { board, players, current_turn: 0, district_shop_count: vec![0, 0, 0, 0] }
}

fn player(name: &str, cash: i64) -> PlayerState {
    PlayerState::new(name.to_string(), PlayerKind::Bot, cash)
}

fn full_suits() -> SuitSet {
    SuitSet { spade: true, heart: true, diamond: true, club: true }
}

#[test]
fn property_bought_then_fee_paid() {
    let downtown = TileKind::Property { district: District::Downtown, price: 300, base_fee: 80 };
    let mut g = game_with(
        vec![tile(0, TileKind::Bank), tile(1, downtown)],
        vec![player("A", 2500), player("B", 1000)],
    );
    g.advance_player(0, 1, 0);
    assert_eq!(g.players[0].cash, 2200);
    assert_eq!(g.players[0].properties, vec![1]);
    assert_eq!(g.district_shop_count[District::Downtown.index()], 1);
    g.advance_player(1, 1, 0);
    assert_eq!(g.players[1].cash, 920);
    assert_eq!(g.players[0].cash, 2280);
    assert!(g.players[1].properties.is_empty());
}

#[test]
fn full_suit_set_cashes_out_at_bank() {
    let mut p = player("A", 1000);
    p.suits = full_suits();
    let mut g = game_with(vec![tile(0, TileKind::Bank)], vec![p]);
    assert_eq!(g.players[0].net_worth(&g.board), 1000);
    g.handle_tile(0, 0, 0);
    assert_eq!(g.players[0].cash, 1600);
    assert_eq!(g.players[0].suits.len(), 0);
    assert_eq!(g.players[0].level, 1);
}

#[test]
fn bank_without_full_set_does_nothing() {
    let mut p = player("A", 1000);
    p.suits = SuitSet { spade: true, heart: true, diamond: true, club: false };
    let mut g = game_with(vec![tile(0, TileKind::Bank)], vec![p]);
    g.handle_tile(0, 0, 0);
    assert_eq!(g.players[0].cash, 1000);
    assert_eq!(g.players[0].suits.len(), 3);
    assert_eq!(g.players[0].level, 0);
}

#[test]
fn bank_salary_counts_properties_and_stocks() {
    let mut p = player("A", 1000);
    p.suits = full_suits();
    p.properties = vec![1];
    p.stocks = vec![0, 55, 0, 0];
    let harbor = TileKind::Property { district: District::Harbor, price: 350, base_fee: 95 };
    let mut g = game_with(vec![tile(0, TileKind::Bank), tile(1, harbor)], vec![p]);
    assert_eq!(g.players[0].net_worth(&g.board), 1405);
    g.handle_tile(0, 0, 0);
    assert_eq!(g.players[0].cash, 1000 + 500 + 140);
}

#[test]
fn bank_salary_rounds_down_on_negative_worth() {
    let mut p = player("A", -1005);
    p.suits = full_suits();
    let mut g = game_with(vec![tile(0, TileKind::Bank)], vec![p]);
    g.handle_tile(0, 0, 0);
    assert_eq!(g.players[0].cash, -1005 + 500 - 101);
}

#[test]
fn purchase_declined_without_enough_cash() {
    let plaza = TileKind::Property { district: District::Plaza, price: 280, base_fee: 75 };
    let mut g = game_with(vec![tile(0, TileKind::Bank), tile(1, plaza)], vec![player("A", 279)]);
    g.advance_player(0, 1, 0);
    assert_eq!(g.players[0].cash, 279);
    assert!(g.players[0].properties.is_empty());
    assert_eq!(g.district_shop_count, vec![0, 0, 0, 0]);
}

#[test]
fn purchase_with_exact_cash() {
    let plaza = TileKind::Property { district: District::Plaza, price: 280, base_fee: 75 };
    let mut g = game_with(vec![tile(0, TileKind::Bank), tile(1, plaza)], vec![player("A", 280)]);
    g.advance_player(0, 1, 0);
    assert_eq!(g.players[0].cash, 0);
    assert_eq!(g.players[0].properties, vec![1]);
    assert_eq!(g.district_shop_count, vec![0, 1, 0, 0]);
}

#[test]
fn landing_on_own_property_changes_nothing() {
    let grove = TileKind::Property { district: District::Grove, price: 240, base_fee: 60 };
    let mut g = game_with(vec![tile(0, TileKind::Bank), tile(1, grove)], vec![player("A", 500)]);
    g.advance_player(0, 1, 0);
    assert_eq!(g.players[0].cash, 260);
    g.advance_player(0, 2, 0);
    assert_eq!(g.players[0].cash, 260);
    assert_eq!(g.players[0].properties, vec![1]);
    assert_eq!(g.district_shop_count, vec![0, 0, 0, 1]);
}

#[test]
fn fee_may_push_cash_negative_and_conserves_total() {
    let grove = TileKind::Property { district: District::Grove, price: 240, base_fee: 60 };
    let mut owner = player("A", 100);
    owner.properties = vec![1];
    let mut g = game_with(vec![tile(0, TileKind::Bank), tile(1, grove)], vec![owner, player("B", 10)]);
    let before = g.players[0].cash + g.players[1].cash;
    g.advance_player(1, 1, 0);
    assert_eq!(g.players[1].cash, -50);
    assert_eq!(g.players[0].cash, 160);
    assert_eq!(g.players[0].cash + g.players[1].cash, before);
}

#[test]
fn no_tile_owned_twice_after_play() {
    let mut g = Game::new();
    for turn in 0..60u64 {
        g.take_turn(turn % 6 + 1, 0);
    }
    for t in 0..g.board.len() {
        let owners = g.players.iter().filter(|p| p.owns_tile(t)).count();
        assert!(owners <= 1);
        assert_eq!(g.find_owner(t).is_some(), owners == 1);
    }
}

#[test]
fn suit_collected_once() {
    let mut g = game_with(vec![tile(0, TileKind::Bank), tile(1, TileKind::Suit(Suit::Heart))], vec![player("A", 0)]);
    g.advance_player(0, 1, 0);
    let once = g.players[0].suits;
    assert!(once.contains(Suit::Heart));
    assert_eq!(once.len(), 1);
    g.advance_player(0, 2, 0);
    assert_eq!(g.players[0].suits, once);
}

#[test]
fn chance_applies_delta() {
    let mut g = game_with(vec![tile(0, TileKind::Bank), tile(1, TileKind::Chance)], vec![player("A", 100)]);
    g.advance_player(0, 1, -150);
    assert_eq!(g.players[0].cash, -50);
    g.advance_player(0, 2, 200);
    assert_eq!(g.players[0].cash, 150);
}

#[test]
fn position_wraps_around_loop() {
    let mut g = Game::new();
    g.advance_player(0, 5, 0);
    assert_eq!(g.players[0].position, 5);
    g.advance_player(0, 9, 0);
    assert_eq!(g.players[0].position, 2);
    g.advance_player(0, u64::MAX, 0);
    assert_eq!(g.players[0].position, ((2u128 + u64::MAX as u128) % 12) as usize);
}

#[test]
fn turns_cycle_back_after_every_player() {
    let mut g = Game::new();
    let start = g.current_turn;
    g.take_turn(3, 0);
    assert_eq!(g.current_turn, 1);
    g.take_turn(4, 0);
    assert_eq!(g.current_turn, 2);
    g.take_turn(1, 0);
    assert_eq!(g.current_turn, start);
}

#[test]
fn turn_without_players_is_a_no_op() {
    let mut g = game_with(vec![tile(0, TileKind::Bank)], vec![]);
    g.take_turn(3, 0);
    assert_eq!(g.current_turn, 0);
    assert!(g.players.is_empty());
}

#[test]
fn bot_turn_skips_humans() {
    let mut g = Game::new();
    g.bot_turn(2, 0);
    assert_eq!(g.current_turn, 1);
    assert_eq!(g.players[0].position, 0);
    g.bot_turn(2, 0);
    assert_eq!(g.current_turn, 2);
    assert_eq!(g.players[1].position, 2);
}

#[test]
fn standard_board_layout() {
    let board = generate_board();
    assert_eq!(board.len(), 12);
    assert!(matches!(board[0].kind, TileKind::Bank));
    assert_eq!(
        board[1].kind,
        TileKind::Property { district: District::Downtown, price: 300, base_fee: 80 }
    );
    assert_eq!(board[2].kind, TileKind::Suit(Suit::Spade));
    assert_eq!(board[4].kind, TileKind::Chance);
    assert_eq!(
        board[11].kind,
        TileKind::Property { district: District::Harbor, price: 360, base_fee: 105 }
    );
    for (i, t) in board.iter().enumerate() {
        assert_eq!(t.index, i);
    }
    assert_eq!((board[3].col, board[3].row), (3, 0));
    assert_eq!((board[4].col, board[4].row), (3, 1));
    assert_eq!((board[7].col, board[7].row), (2, 3));
    assert_eq!((board[11].col, board[11].row), (0, 1));
}

#[test]
fn new_game_roster() {
    let g = Game::new();
    assert_eq!(g.players.len(), 3);
    assert_eq!(g.players[0].name, "Hero");
    assert_eq!(g.players[0].kind, PlayerKind::Human);
    assert_eq!(g.players[2].name, "Bot B");
    assert!(g.players.iter().all(|p| p.cash == 2500 && p.position == 0 && p.level == 0));
    assert_eq!(g.players[1].net_worth(&g.board), 2500);
}

#[test]
fn labels_and_icons() {
    assert_eq!(Suit::Heart.icon(), "\u{2665}");
    assert_eq!(Suit::Club.icon(), "\u{2663}");
    assert_eq!(District::Harbor.name(), "Harbor");
    assert_eq!(PlayerKind::default(), PlayerKind::Human);
}

#[test]
fn random_draws_stay_in_range() {
    let mut rolls = Vec::new();
    for _ in 0..300 {
        let r = roll_die();
        assert!((1..=6).contains(&r));
        rolls.push(r);
        let d = chance_delta();
        assert!((-150..=200).contains(&d));
    }
    assert!(rolls.iter().any(|r| *r != rolls[0]));
}

#[test]
fn bot_plays_random_turn() {
    let mut g = Game::new();
    g.current_turn = 1;
    g.play_bot_turn();
    assert_eq!(g.current_turn, 2);
    assert!((1..=6).contains(&g.players[1].position));
}

#[test]
fn validity_check() {
    let g = Game::new();
    assert!(g.is_valid());
    let mut shared = Game::new();
    shared.players[0].properties = vec![1];
    shared.players[1].properties = vec![1];
    assert!(!shared.is_valid());
    let mut repeated = Game::new();
    repeated.players[0].properties = vec![3, 3];
    assert!(!repeated.is_valid());
    let mut off_board = Game::new();
    off_board.players[2].position = 12;
    assert!(!off_board.is_valid());
    let mut rich = Game::new();
    rich.players[1].cash = i64::MAX;
    assert!(!rich.is_valid());
    let mut bad_turn = Game::new();
    bad_turn.current_turn = 3;
    assert!(!bad_turn.is_valid());
}

#[test]
fn bot_ticks_cycle_from_new_game() {
    let mut g = Game::new();
    g.bot_turn(3, 10);
    assert_eq!(g.current_turn, 1);
    assert!(g.is_valid());
    g.bot_turn(4, -150);
    assert_eq!(g.current_turn, 2);
    assert!(g.is_valid());
    g.bot_turn(6, 200);
    assert_eq!(g.current_turn, 0);
    assert_eq!(g.players[0].position, 0);
    assert_eq!(g.players[1].position, 4);
    assert_eq!(g.players[2].position, 6);
}

#[test]
fn new_game_uses_standard_board() {
    let g = Game::new();
    assert_eq!(g.board, generate_board());
}
