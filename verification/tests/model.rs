use mahjong::tile::Hai;
use mahjong::mentsu::{check_hai_in_range, check_mentsu, Mentsu};
use mahjong::tehai::Tehai;
use mahjong::error::MahjongError;
use mahjong::haiyama::Haiyama;
use mahjong::game::Game;

fn m(n: u8) -> Hai {
    Hai::Manzu(n)
}

fn p(n: u8) -> Hai {
    Hai::Pinzu(n)
}

fn s(n: u8) -> Hai {
    Hai::Souzu(n)
}

fn z(n: u8) -> Hai {
    Hai::Jihai(n)
}

#[test]
fn tile_index_roundtrip() {
    for k in 0..34u8 {
        let h = Hai::from_index(k);
        assert!(h.in_range());
        assert_eq!(h.index(), k);
    }
    assert_eq!(m(1).index(), 0);
    assert_eq!(m(9).index(), 8);
    assert_eq!(p(1).index(), 9);
    assert_eq!(s(9).index(), 26);
    assert_eq!(z(1).index(), 27);
    assert_eq!(z(7).index(), 33);
}

#[test]
fn tile_adjacency() {
    assert_eq!(m(1).next(), Some(m(2)));
    assert_eq!(m(9).next(), None);
    assert_eq!(m(1).before(), None);
    assert_eq!(m(9).before(), Some(m(8)));
    assert_eq!(z(3).next(), None);
    assert_eq!(z(3).before(), None);
    assert_eq!(s(5).next(), Some(s(6)));
}

#[test]
fn tile_yaochuu() {
    assert!(m(1).yaochuu());
    assert!(m(9).yaochuu());
    assert!(!m(5).yaochuu());
    assert!(z(1).yaochuu());
    assert!(z(7).yaochuu());
    assert!(!z(8).yaochuu());
}

#[test]
fn range_check_examples() {
    assert!(check_hai_in_range(&vec![m(1), s(9), z(7)]));
    assert!(!check_hai_in_range(&vec![m(4), z(8)]));
    assert!(!check_hai_in_range(&vec![m(0)]));
    assert!(!check_hai_in_range(&vec![p(10)]));
}

#[test]
fn mentsu_recognition() {
    assert_eq!(
        check_mentsu(&vec![m(2), m(1), m(3)]),
        Some(Mentsu::Juntsu(m(1), m(2), m(3)))
    );
    assert_eq!(check_mentsu(&vec![p(7), p(7), p(7)]), Some(Mentsu::Koutsu(p(7))));
    assert_eq!(check_mentsu(&vec![z(8), z(8), z(8)]), None);
    assert_eq!(
        check_mentsu(&vec![s(4), s(4), s(4), s(4)]),
        Some(Mentsu::Kantsu(s(4)))
    );
    assert_eq!(check_mentsu(&vec![m(1), m(2), m(4)]), None);
    assert_eq!(check_mentsu(&vec![m(1), p(2), s(3)]), None);
    assert_eq!(check_mentsu(&vec![z(1), z(2), z(3)]), None);
    assert_eq!(check_mentsu(&vec![m(1), m(2)]), None);
}

#[test]
fn hand_sorts_tiles() {
    let tehai = Tehai::new(
        vec![z(1), m(3), p(2), m(1), m(2), p(1), p(3), s(1), s(2), s(3), z(1), m(7), m(8), m(9)],
        vec![],
    )
    .unwrap();
    let expected = vec![
        m(1), m(2), m(3), m(7), m(8), m(9), p(1), p(2), p(3), s(1), s(2), s(3), z(1), z(1),
    ];
    assert_eq!(tehai.menzen, expected);
}

#[test]
fn hand_rejects_thirteen_tiles() {
    let mut tiles = Vec::new();
    for n in [1, 1, 1, 2, 2, 2, 3, 3, 3, 4, 4, 4, 5] {
        tiles.push(m(n));
    }
    assert_eq!(Tehai::new(tiles, vec![]).unwrap_err(), MahjongError::InvalidHandShape);
}

#[test]
fn hand_rejects_out_of_range_tile() {
    assert_eq!(
        Tehai::new(vec![m(0), m(1)], vec![]).unwrap_err(),
        MahjongError::InvalidTile
    );
}

#[test]
fn hand_rejects_bad_meld() {
    let r = Tehai::new(vec![m(1), m(1)], vec![Mentsu::Juntsu(m(1), m(3), m(5))]);
    assert_eq!(r.unwrap_err(), MahjongError::InvalidMeld);
}

#[test]
fn hand_rejects_too_many_tiles() {
    let mut tiles = Vec::new();
    for n in 1..=9 {
        tiles.push(m(n));
    }
    tiles.push(p(1));
    tiles.push(p(2));
    assert_eq!(
        Tehai::new(tiles, vec![Mentsu::Koutsu(z(1)), Mentsu::Koutsu(z(2))]).unwrap_err(),
        MahjongError::InvalidHandShape
    );
}

#[test]
fn haiyama_starts_full() {
    let yama = Haiyama::new();
    assert_eq!(yama.counts.len(), 34);
    for k in 0..34 {
        assert_eq!(yama.counts[k], 4);
    }
}

#[test]
fn haiyama_add_refuses_fifth_copy() {
    let mut yama = Haiyama::new();
    assert_eq!(yama.add(&m(1)).unwrap_err(), MahjongError::HaiyamaFull);
    yama.discard(&m(1)).unwrap();
    assert_eq!(yama.counts[0], 3);
    yama.add(&m(1)).unwrap();
    assert_eq!(yama.counts[0], 4);
}

#[test]
fn haiyama_discard_refuses_empty() {
    let mut yama = Haiyama::new();
    for _ in 0..4 {
        yama.discard(&z(7)).unwrap();
    }
    assert_eq!(yama.counts[33], 0);
    assert_eq!(yama.discard(&z(7)).unwrap_err(), MahjongError::HaiyamaEmpty);
}

#[test]
fn haiyama_force_add_passes_cap() {
    let mut yama = Haiyama::new();
    yama.force_add(&s(3));
    assert_eq!(yama.counts[s(3).index() as usize], 5);
}

#[test]
fn haiyama_initialize_resets() {
    let mut yama = Haiyama::new();
    yama.discard(&m(1)).unwrap();
    yama.initialize();
    assert_eq!(yama.counts[0], 4);
}

#[test]
fn game_holds_hand() {
    let mut game = Game::new();
    assert!(game.tehai().is_none());
    let tehai = Tehai::new(vec![m(1), m(1)], vec![]).unwrap();
    game.set_tehai(tehai);
    assert!(game.tehai().is_some());
    game.initialize();
    assert!(game.tehai().is_none());
    assert_eq!(game.yama.counts[5], 4);
}
