use mega_sena::draw::MegaSena;
use mega_sena::trio::{generate_trios, has_repeated_trio, has_repeated_trio_by_sets};

fn record(balls: [Option<i64>; 6]) -> MegaSena {
    MegaSena {
        id: 1,
        concurso: 1,
        data: String::from("01/01/2020"),
        bola_1: balls[0],
        bola_2: balls[1],
        bola_3: balls[2],
        bola_4: balls[3],
        bola_5: balls[4],
        bola_6: balls[5],
        inserted_at: String::new(),
        generated_by_rust: false,
    }
}

fn full(balls: [i64; 6]) -> MegaSena {
    record([
        Some(balls[0]),
        Some(balls[1]),
        Some(balls[2]),
        Some(balls[3]),
        Some(balls[4]),
        Some(balls[5]),
    ])
}

#[test]
fn trios_come_in_the_order_of_their_positions() {
    let trios = generate_trios(&[10, 20, 30, 40, 50, 60]);
    let expected: Vec<[i64; 3]> = vec![
        [10, 20, 30],
        [10, 20, 40],
        [10, 20, 50],
        [10, 20, 60],
        [10, 30, 40],
        [10, 30, 50],
        [10, 30, 60],
        [10, 40, 50],
        [10, 40, 60],
        [10, 50, 60],
        [20, 30, 40],
        [20, 30, 50],
        [20, 30, 60],
        [20, 40, 50],
        [20, 40, 60],
        [20, 50, 60],
        [30, 40, 50],
        [30, 40, 60],
        [30, 50, 60],
        [40, 50, 60],
    ];
    assert_eq!(trios, expected);
}

#[test]
fn twenty_distinct_subsets_of_the_draw() {
    let game = [4, 8, 15, 16, 23, 42];
    let trios = generate_trios(&game);
    assert_eq!(trios.len(), 20);
    for t in &trios {
        assert!(t[0] != t[1] && t[1] != t[2] && t[0] != t[2]);
        assert!(game.contains(&t[0]) && game.contains(&t[1]) && game.contains(&t[2]));
    }
    for a in 0..trios.len() {
        for b in (a + 1)..trios.len() {
            let mut x = trios[a];
            let mut y = trios[b];
            x.sort();
            y.sort();
            assert_ne!(x, y);
        }
    }
}

#[test]
fn trios_follow_positions_not_values() {
    let trios = generate_trios(&[60, 1, 30, 2, 59, 3]);
    assert_eq!(trios[0], [60, 1, 30]);
    assert_eq!(trios[9], [60, 59, 3]);
    assert_eq!(trios[19], [2, 59, 3]);
}

#[test]
fn trio_held_by_one_past_draw_is_repeated() {
    let history = vec![full([1, 2, 3, 4, 5, 6]), full([10, 20, 30, 40, 50, 60])];
    assert!(has_repeated_trio(&full([7, 8, 20, 40, 41, 60]), &history));
    assert!(has_repeated_trio_by_sets(&history, &vec![[60, 20, 40]]));
    assert!(has_repeated_trio_by_sets(&history, &vec![[7, 8, 9], [2, 4, 6]]));
}

#[test]
fn three_numbers_spread_over_two_draws_are_not_repeated() {
    let history = vec![full([1, 2, 3, 4, 5, 6]), full([10, 20, 30, 40, 50, 60])];
    assert!(!has_repeated_trio(&full([1, 2, 10, 20, 33, 44]), &history));
    assert!(!has_repeated_trio_by_sets(&history, &vec![[1, 2, 10], [5, 6, 60]]));
    assert!(!has_repeated_trio_by_sets(&history, &Vec::new()));
}

#[test]
fn missing_ball_never_matches() {
    let history = vec![record([Some(1), Some(2), None, None, None, None])];
    assert!(!has_repeated_trio(&full([1, 2, 3, 4, 5, 6]), &history));
    let history = vec![record([Some(1), None, Some(2), None, Some(3), None])];
    assert!(has_repeated_trio(&full([1, 2, 3, 4, 5, 6]), &history));
}
