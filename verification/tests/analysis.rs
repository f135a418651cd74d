use mahjong::tile::Hai;
use mahjong::mentsu::Mentsu;
use mahjong::tehai::Tehai;
use mahjong::decomp::{Decomposer, Hourakei};
use mahjong::shanten::calculate;
use mahjong::machi::{analyze, Condition};
use mahjong::error::MahjongError;

fn m(n: u8) -> Hai {
    Hai::Manzu(n)
}

fn p(n: u8) -> Hai {
    Hai::Pinzu(n)
}

fn s(n: u8) -> Hai {
    Hai::Souzu(n)
}

fn z(n: u8) -> Hai {
    Hai::Jihai(n)
}

fn hand(ranks: &[(fn(u8) -> Hai, u8)]) -> Tehai {
    let mut tiles = Vec::new();
    for (suit, n) in ranks {
        tiles.push(suit(*n));
    }
    Tehai::new(tiles, Vec::new()).unwrap()
}

fn manzu_hand(ranks: &[u8]) -> Tehai {
    let mut tiles = Vec::new();
    for n in ranks {
        tiles.push(m(*n));
    }
    Tehai::new(tiles, Vec::new()).unwrap()
}

#[test]
fn five_tiles_waiting() {
    let tehai = manzu_hand(&[1, 1, 1, 2, 4]);
    let (n, mins) = calculate(&tehai).unwrap();
    assert_eq!(n, 0);
    assert!(mins.len() > 0);
}

#[test]
fn five_tiles_complete() {
    let tehai = manzu_hand(&[1, 1, 1, 2, 2]);
    let (n, _) = calculate(&tehai).unwrap();
    assert_eq!(n, -1);
}

#[test]
fn standard_complete_hand() {
    let tehai = hand(&[
        (m, 1), (m, 2), (m, 3), (m, 4), (m, 5), (m, 6), (m, 7), (m, 8), (m, 9),
        (p, 1), (p, 2), (p, 3), (z, 5), (z, 5),
    ]);
    let (n, conditions) = analyze(&tehai, None).unwrap();
    assert_eq!(n, -1);
    assert!(conditions.is_empty());
}

#[test]
fn seven_pairs_complete_hand() {
    let tehai = hand(&[
        (z, 1), (z, 1), (z, 2), (z, 2), (z, 3), (z, 3), (z, 4), (z, 4),
        (z, 5), (z, 5), (z, 6), (z, 6), (z, 7), (z, 7),
    ]);
    let (n, mins) = calculate(&tehai).unwrap();
    assert_eq!(n, -1);
    let mut found_chiitoitsu = false;
    for d in mins.iter() {
        if d.hourakei() == Hourakei::Chiitoitsu {
            found_chiitoitsu = true;
            assert_eq!(d.toitsu_vec().len(), 7);
            assert_eq!(d.chiitoutsu_kokushimusou_valid_tile_vec().len(), 0);
        }
    }
    assert!(found_chiitoitsu);
}

#[test]
fn thirteen_orphans_complete_hand() {
    let tehai = hand(&[
        (m, 1), (m, 9), (p, 1), (p, 9), (s, 1), (s, 9),
        (z, 1), (z, 2), (z, 3), (z, 4), (z, 5), (z, 6), (z, 7), (z, 1),
    ]);
    let (n, mins) = calculate(&tehai).unwrap();
    assert_eq!(n, -1);
    let mut found_kokushimusou = false;
    for d in mins.iter() {
        if d.hourakei() == Hourakei::Kokushimusou {
            found_kokushimusou = true;
            assert_eq!(d.chiitoutsu_kokushimusou_valid_tile_vec().len(), 14);
        }
    }
    assert!(found_kokushimusou);
}

#[test]
fn pattern_scans_need_closed_fourteen() {
    // eleven concealed tiles beside one open group: only the standard
    // pattern may appear
    let tiles = vec![
        m(1), m(2), m(3), m(4), m(5), m(6), m(7), m(8), m(9), p(2), p(2),
    ];
    let tehai = Tehai::new(tiles, vec![Mentsu::Koutsu(z(1))]).unwrap();
    let (n, mins) = calculate(&tehai).unwrap();
    assert_eq!(n, -1);
    for d in mins.iter() {
        assert_eq!(d.hourakei(), Hourakei::Mentsute);
    }
}

#[test]
fn chiitoitsu_partial_hand() {
    let tehai = hand(&[
        (m, 1), (m, 1), (m, 2), (m, 2), (m, 3), (m, 3),
        (p, 4), (p, 4), (p, 5), (p, 5), (p, 6), (p, 6),
        (s, 1), (s, 7),
    ]);
    let (n, _) = calculate(&tehai).unwrap();
    assert_eq!(n, 0);
}

#[test]
fn duplicate_pair_decomposition_rejected() {
    // a standard decomposition whose pair list repeats one value gets the
    // sentinel maximum
    let d = Decomposer {
        mentsu_vec: Vec::new(),
        toitsu_vec: vec![mahjong::mentsu::Toitsu(m(1)), mahjong::mentsu::Toitsu(m(1))],
        taatsu_vec: Vec::new(),
        ukihai_vec: Vec::new(),
        chiitoutsu_kokushimusou_valid_tile_vec: Vec::new(),
        hourakei: Hourakei::Mentsute,
    };
    assert_eq!(d.shanten_number(14), 13);
}

#[test]
fn shanten_formula_values() {
    // four groups and a pair: complete
    let d = Decomposer {
        mentsu_vec: vec![
            Mentsu::Juntsu(m(1), m(2), m(3)),
            Mentsu::Juntsu(m(4), m(5), m(6)),
            Mentsu::Juntsu(m(7), m(8), m(9)),
            Mentsu::Koutsu(p(1)),
        ],
        toitsu_vec: vec![mahjong::mentsu::Toitsu(z(5))],
        taatsu_vec: Vec::new(),
        ukihai_vec: Vec::new(),
        chiitoutsu_kokushimusou_valid_tile_vec: Vec::new(),
        hourakei: Hourakei::Mentsute,
    };
    assert_eq!(d.shanten_number(14), -1);
}

#[test]
fn tenpai_hand_wait_analysis() {
    // thirteen tiles of one suit beside a lone honor
    let tehai = hand(&[
        (m, 1), (m, 1), (m, 1), (m, 2), (m, 2), (m, 2), (m, 3), (m, 3), (m, 3),
        (m, 4), (m, 4), (m, 4), (m, 5), (z, 1),
    ]);
    let (n, conditions) = analyze(&tehai, None).unwrap();
    assert_eq!(n, 0);
    assert_eq!(conditions.len(), 3);

    assert_eq!(conditions[0].sutehai, z(1));
    assert_eq!(
        conditions[0].machihai,
        vec![(m(2), 1), (m(3), 1), (m(4), 1), (m(5), 3), (m(6), 4)]
    );
    assert!(!conditions[0].furiten);

    assert_eq!(conditions[1].sutehai, m(2));
    assert_eq!(conditions[1].machihai, vec![(z(1), 3)]);

    assert_eq!(conditions[2].sutehai, m(5));
    assert_eq!(conditions[2].machihai, vec![(z(1), 3)]);
}

#[test]
fn wait_counts_stay_in_range() {
    let hands = [
        vec![m(1), m(1), m(1), m(2), m(2), m(2), m(3), m(3), m(3), m(4), m(4), m(4), m(5), z(1)],
        vec![m(1), m(9), p(1), p(9), s(1), s(9), z(1), z(2), z(3), z(4), z(5), z(6), z(7), m(5)],
        vec![m(1), m(1), m(2), m(2), m(3), m(3), p(4), p(4), p(5), p(5), p(6), p(6), s(1), s(7)],
        vec![m(2), m(5), m(8), p(2), p(5), p(8), s(2), s(5), s(8), z(1), z(2), z(3), z(4), z(5)],
    ];
    for tiles in hands.iter() {
        let tehai = Tehai::new(tiles.clone(), Vec::new()).unwrap();
        let (_, conditions) = analyze(&tehai, None).unwrap();
        for c in conditions.iter() {
            let mut nokori: u32 = 0;
            for (_, count) in c.machihai.iter() {
                assert!(*count >= 1);
                assert!(*count <= 4);
                nokori += *count as u32;
            }
            assert!(nokori > 0);
        }
        for w in conditions.windows(2) {
            let t0: u32 = w[0].machihai.iter().map(|(_, c)| *c as u32).sum();
            let t1: u32 = w[1].machihai.iter().map(|(_, c)| *c as u32).sum();
            assert!(t0 > t1 || (t0 == t1 && w[0].sutehai.index() <= w[1].sutehai.index()));
        }
    }
}

#[test]
fn analysis_is_repeatable() {
    let tiles = vec![
        m(1), m(1), m(1), m(2), m(2), m(2), m(3), m(3), m(3), m(4), m(4), m(4), m(5), z(1),
    ];
    let tehai_a = Tehai::new(tiles.clone(), Vec::new()).unwrap();
    let tehai_b = Tehai::new(tiles, Vec::new()).unwrap();
    let (n_a, conds_a) = analyze(&tehai_a, None).unwrap();
    let (n_b, conds_b) = analyze(&tehai_b, None).unwrap();
    assert_eq!(n_a, n_b);
    assert_eq!(conds_a.len(), conds_b.len());
    for (a, b) in conds_a.iter().zip(conds_b.iter()) {
        assert_eq!(a.sutehai, b.sutehai);
        assert_eq!(a.machihai, b.machihai);
        assert_eq!(a.furiten, b.furiten);
    }

    let (n_c, mins_c) = calculate(&tehai_a).unwrap();
    let (n_d, mins_d) = calculate(&tehai_b).unwrap();
    assert_eq!(n_c, n_d);
    assert_eq!(mins_c.len(), mins_d.len());
    for d in mins_c.iter() {
        assert!(mins_d.iter().any(|e| e.same_content(d)));
    }
}

#[test]
fn kokushimusou_one_away() {
    // all thirteen orphan kinds present, none duplicated: one tile from
    // completion
    let tehai = hand(&[
        (m, 1), (m, 9), (p, 1), (p, 9), (s, 1), (s, 9),
        (z, 1), (z, 2), (z, 3), (z, 4), (z, 5), (z, 6), (z, 7), (m, 5),
    ]);
    let (n, _) = calculate(&tehai).unwrap();
    assert_eq!(n, 0);
}

#[test]
fn wait_collection_rejects_distance_below_floor() {
    let mut condition = Condition {
        sutehai: m(1),
        machihai: Vec::new(),
        furiten: false,
        shanten_number: -2,
        hai_number: 14,
    };
    let d = Decomposer {
        mentsu_vec: Vec::new(),
        toitsu_vec: Vec::new(),
        taatsu_vec: Vec::new(),
        ukihai_vec: Vec::new(),
        chiitoutsu_kokushimusou_valid_tile_vec: Vec::new(),
        hourakei: Hourakei::Mentsute,
    };
    assert_eq!(condition.handle(&d).unwrap_err(), MahjongError::ShantenBelowFloor);
}

#[test]
fn kokushimusou_tenpai_waits_on_all_orphans() {
    // thirteen distinct orphans beside one ordinary tile: discarding it
    // waits on every orphan kind
    let tehai = hand(&[
        (m, 1), (m, 9), (p, 1), (p, 9), (s, 1), (s, 9),
        (z, 1), (z, 2), (z, 3), (z, 4), (z, 5), (z, 6), (z, 7), (m, 5),
    ]);
    let (n, conditions) = analyze(&tehai, None).unwrap();
    assert_eq!(n, 0);
    assert_eq!(conditions.len(), 1);
    assert_eq!(conditions[0].sutehai, m(5));
    assert_eq!(
        conditions[0].machihai,
        vec![
            (m(1), 3), (m(9), 3), (p(1), 3), (p(9), 3), (s(1), 3), (s(9), 3),
            (z(1), 3), (z(2), 3), (z(3), 3), (z(4), 3), (z(5), 3), (z(6), 3), (z(7), 3),
        ]
    );
}

#[test]
fn kokushimusou_tenpai_waits_on_missing_orphan() {
    // a pair of one orphan and eleven other orphan kinds: the wait is the
    // one missing orphan kind
    let tehai = hand(&[
        (m, 1), (m, 1), (m, 9), (p, 1), (p, 9), (s, 1), (s, 9),
        (z, 1), (z, 2), (z, 3), (z, 4), (z, 5), (z, 6), (p, 5),
    ]);
    let (n, conditions) = analyze(&tehai, None).unwrap();
    assert_eq!(n, 0);
    assert_eq!(conditions.len(), 1);
    assert_eq!(conditions[0].sutehai, p(5));
    assert_eq!(conditions[0].machihai, vec![(z(7), 4)]);
}

#[test]
fn chiitoitsu_tenpai_waits_pair_the_lone_tiles() {
    // six honor pairs and two lone tiles: discarding either lone tile
    // waits on the other
    let tehai = hand(&[
        (z, 1), (z, 1), (z, 2), (z, 2), (z, 3), (z, 3),
        (z, 4), (z, 4), (z, 5), (z, 5), (z, 6), (z, 6), (z, 7), (m, 1),
    ]);
    let (n, conditions) = analyze(&tehai, None).unwrap();
    assert_eq!(n, 0);
    assert_eq!(conditions.len(), 2);
    assert_eq!(conditions[0].sutehai, m(1));
    assert_eq!(conditions[0].machihai, vec![(z(7), 3)]);
    assert_eq!(conditions[1].sutehai, z(7));
    assert_eq!(conditions[1].machihai, vec![(m(1), 3)]);
}

#[test]
fn chiitoitsu_short_of_pairs_waits_on_unpaired_kinds() {
    // with fewer pairs and lone tiles than seven, every kind not already
    // paired is a wait
    let mut condition = Condition {
        sutehai: s(9),
        machihai: Vec::new(),
        furiten: false,
        shanten_number: 2,
        hai_number: 14,
    };
    let d = Decomposer {
        mentsu_vec: Vec::new(),
        toitsu_vec: vec![
            mahjong::mentsu::Toitsu(m(1)),
            mahjong::mentsu::Toitsu(m(2)),
            mahjong::mentsu::Toitsu(m(3)),
        ],
        taatsu_vec: Vec::new(),
        ukihai_vec: vec![mahjong::mentsu::Ukihai(s(9))],
        chiitoutsu_kokushimusou_valid_tile_vec: vec![p(1), p(2)],
        hourakei: Hourakei::Chiitoitsu,
    };
    condition.handle(&d).unwrap();
    assert_eq!(condition.machihai.len(), 31);
    for (hai, count) in condition.machihai.iter() {
        assert_ne!(*hai, m(1));
        assert_ne!(*hai, m(2));
        assert_ne!(*hai, m(3));
        assert_eq!(*count, 4);
    }
}

#[test]
fn decompositions_account_for_all_tiles() {
    let tiles = vec![
        m(1), m(1), m(1), m(2), m(2), m(2), m(3), m(3), m(3), m(4), m(4), m(4), m(5), z(1),
    ];
    let tehai = Tehai::new(tiles, Vec::new()).unwrap();
    let (_, mins) = calculate(&tehai).unwrap();
    assert!(mins.len() > 0);
    for d in mins.iter() {
        let mut count = 0;
        for g in d.mentsu_vec().iter() {
            count += match g {
                Mentsu::Kantsu(_) => 4,
                _ => 3,
            };
        }
        count += 2 * d.toitsu_vec().len();
        count += 2 * d.taatsu_vec().len();
        count += d.ukihai_vec().len();
        count += d.chiitoutsu_kokushimusou_valid_tile_vec().len();
        assert_eq!(count, 14);
    }
}
