use mega_sena::admission::{
    evaluate, generate_batch, AdmissionLoop, AdmissionState, GenerationConfig, GenerationError,
    Verdict, DESIRED_GAMES, OVERLAP_THRESHOLD,
};
use mega_sena::corpus::{select_corpus, Corpus};
use mega_sena::draw::MegaSena;
use mega_sena::generator::{candidate_from_sample, generate_mega_sena, sort_ascending};
use mega_sena::overlap::is_blocked;
use mega_sena::sum_range::{estimate_sum_range, AdmissibleRange, BASELINE_MIN_SUM};

fn historical(concurso: i64, balls: [i64; 6]) -> MegaSena {
    MegaSena {
        id: concurso,
        concurso,
        data: String::from("01/01/2020"),
        bola_1: Some(balls[0]),
        bola_2: Some(balls[1]),
        bola_3: Some(balls[2]),
        bola_4: Some(balls[3]),
        bola_5: Some(balls[4]),
        bola_6: Some(balls[5]),
        inserted_at: String::from("2020-01-01 00:00:00"),
        generated_by_rust: false,
    }
}

fn candidate(balls: [i64; 6]) -> MegaSena {
    candidate_from_sample(&balls.to_vec()).unwrap()
}

/// A history whose sums span from 21 to 345, so that nearly every draw has
/// an admissible sum.
fn wide_history() -> Vec<MegaSena> {
    vec![
        historical(1, [1, 2, 3, 4, 5, 6]),
        historical(2, [55, 56, 57, 58, 59, 60]),
        historical(3, [10, 20, 30, 40, 50, 60]),
    ]
}

#[test]
fn generated_draw_is_six_distinct_numbers_in_ascending_order() {
    for _ in 0..200 {
        let draw = generate_mega_sena();
        let balls = draw.numbers_in_order().unwrap();
        for w in balls.windows(2) {
            assert!(w[0] < w[1]);
        }
        assert!(1 <= balls[0] && balls[5] <= 60);
        assert!(draw.is_playable());
        assert!(draw.generated_by_rust);
        assert_eq!(draw.id, 0);
        assert_eq!(draw.concurso, 999999);
        assert_eq!(draw.data, "31/12/2025");
        assert_eq!(draw.inserted_at, "Algum momento");
    }
}

#[test]
fn generated_draws_vary() {
    let first = generate_mega_sena();
    let mut differs = false;
    for _ in 0..50 {
        if generate_mega_sena() != first {
            differs = true;
        }
    }
    assert!(differs);
}

#[test]
fn sample_becomes_a_sorted_draw() {
    let draw = candidate_from_sample(&vec![60, 1, 33, 7, 45, 12]).unwrap();
    assert_eq!(draw.numbers_in_order(), Some([1, 7, 12, 33, 45, 60]));
    assert_eq!(draw.bola_1, Some(1));
    assert_eq!(draw.bola_6, Some(60));
    assert!(draw.generated_by_rust);
    assert_eq!(draw.id, 0);
    assert_eq!(draw.concurso, 999999);
    assert_eq!(draw.data, "31/12/2025");
    assert_eq!(draw.inserted_at, "Algum momento");
}

#[test]
fn sample_of_wrong_length_is_no_draw() {
    assert_eq!(candidate_from_sample(&vec![]), None);
    assert_eq!(candidate_from_sample(&vec![1, 2, 3, 4, 5]), None);
    assert_eq!(candidate_from_sample(&vec![1, 2, 3, 4, 5, 6, 7]), None);
}

#[test]
fn sample_with_a_repeated_number_is_no_draw() {
    assert_eq!(candidate_from_sample(&vec![1, 2, 3, 4, 5, 5]), None);
    assert_eq!(candidate_from_sample(&vec![9, 2, 3, 9, 5, 6]), None);
}

#[test]
fn sample_out_of_range_is_no_draw() {
    assert_eq!(candidate_from_sample(&vec![0, 2, 3, 4, 5, 6]), None);
    assert_eq!(candidate_from_sample(&vec![1, 2, 3, 4, 5, 61]), None);
    assert_eq!(candidate_from_sample(&vec![-1, 2, 3, 4, 5, 6]), None);
    assert_eq!(candidate_from_sample(&vec![i64::MIN, 2, 3, 4, 5, i64::MAX]), None);
    assert!(candidate_from_sample(&vec![1, 2, 3, 4, 5, 60]).is_some());
}

#[test]
fn sort_orders_and_keeps_every_value() {
    let mut values = vec![5, -3, 5, 0, i64::MAX, i64::MIN, 2];
    sort_ascending(&mut values);
    assert_eq!(values, vec![i64::MIN, -3, 0, 2, 5, 5, i64::MAX]);
    let mut empty: Vec<i64> = Vec::new();
    sort_ascending(&mut empty);
    assert!(empty.is_empty());
    let mut one = vec![7];
    sort_ascending(&mut one);
    assert_eq!(one, vec![7]);
    let mut descending = vec![6, 5, 4, 3, 2, 1];
    sort_ascending(&mut descending);
    assert_eq!(descending, vec![1, 2, 3, 4, 5, 6]);
}

#[test]
fn reference_configuration() {
    let config = GenerationConfig::reference();
    assert_eq!(config.overlap_threshold, 4);
    assert_eq!(config.quota, 10);
    assert_eq!(config.baseline_min_sum, 346);
    assert_eq!(OVERLAP_THRESHOLD, 4);
    assert_eq!(DESIRED_GAMES, 10);
    assert_eq!(BASELINE_MIN_SUM, 346);
}

#[test]
fn accepted_candidate_joins_the_batch() {
    let history = wide_history();
    let config = GenerationConfig { overlap_threshold: 4, quota: 2, baseline_min_sum: 346, comparison: Corpus::AllRecords };
    let mut run = AdmissionLoop::start(&history, config);
    assert_eq!(run.sum_range(), AdmissibleRange { min_sum: 21, max_sum: 345 });
    assert_eq!(run.state(), AdmissionState::Sampling);
    assert_eq!(run.games_remaining(), 2);

    assert_eq!(run.offer(candidate([1, 2, 3, 4, 30, 31])), Verdict::RejectedByOverlap);
    assert_eq!(run.games_remaining(), 2);

    assert_eq!(run.offer(candidate([7, 8, 9, 11, 12, 13])), Verdict::Accepted);
    assert_eq!(run.games_remaining(), 1);
    assert_eq!(run.state(), AdmissionState::Sampling);

    assert_eq!(run.offer(candidate([21, 22, 23, 24, 25, 26])), Verdict::Accepted);
    assert_eq!(run.games_remaining(), 0);
    assert_eq!(run.state(), AdmissionState::QuotaMet);

    let batch = run.into_batch();
    assert_eq!(batch.len(), 2);
    assert_eq!(batch[0].numbers_in_order(), Some([7, 8, 9, 11, 12, 13]));
    assert_eq!(batch[1].numbers_in_order(), Some([21, 22, 23, 24, 25, 26]));
}

#[test]
fn candidate_outside_the_sum_range_is_dropped() {
    let history = vec![historical(1, [10, 20, 30, 40, 45, 55]), historical(2, [1, 2, 3, 4, 5, 85])];
    let config = GenerationConfig { overlap_threshold: 4, quota: 1, baseline_min_sum: 346, comparison: Corpus::AllRecords };
    let mut run = AdmissionLoop::start(&history, config);
    assert_eq!(run.sum_range(), AdmissibleRange { min_sum: 100, max_sum: 200 });
    assert_eq!(run.offer(candidate([50, 51, 52, 53, 54, 56])), Verdict::RejectedBySum);
    assert_eq!(run.offer(candidate([6, 7, 8, 9, 11, 59])), Verdict::RejectedBySum);
    assert_eq!(run.offer(candidate([6, 7, 8, 9, 11, 60])), Verdict::Accepted);
    assert_eq!(run.state(), AdmissionState::QuotaMet);
}

#[test]
fn quota_of_zero_is_met_at_once() {
    let history: Vec<MegaSena> = Vec::new();
    let config = GenerationConfig { overlap_threshold: 4, quota: 0, baseline_min_sum: 346, comparison: Corpus::AllRecords };
    let run = AdmissionLoop::start(&history, config);
    assert_eq!(run.state(), AdmissionState::QuotaMet);
    assert!(run.into_batch().is_empty());
    assert_eq!(generate_batch(&history, config, 0), Ok(Vec::new()));
    assert_eq!(generate_batch(&wide_history(), config, 5), Ok(Vec::new()));
}

#[test]
fn empty_history_admits_no_sum() {
    let history: Vec<MegaSena> = Vec::new();
    let config = GenerationConfig::reference();
    assert_eq!(generate_batch(&history, config, 1000), Err(GenerationError::EmptySumRange));
    let mut run = AdmissionLoop::start(&history, config);
    assert_eq!(run.sum_range(), AdmissibleRange { min_sum: 346, max_sum: 0 });
    assert_eq!(run.offer(candidate([1, 2, 3, 4, 5, 6])), Verdict::RejectedBySum);
    assert_eq!(run.games_remaining(), 10);
}

#[test]
fn collapsed_range_is_reported_before_sampling() {
    let history = vec![historical(1, [10, 20, 30, 40, 45, 55])];
    let config = GenerationConfig::reference();
    assert_eq!(
        estimate_sum_range(&history, 346),
        AdmissibleRange { min_sum: 200, max_sum: 200 }
    );
    assert_eq!(generate_batch(&history, config, 0), Err(GenerationError::EmptySumRange));
    assert_eq!(generate_batch(&history, config, 1000), Err(GenerationError::EmptySumRange));
}

#[test]
fn too_few_attempts_cannot_fill_the_batch() {
    let history = wide_history();
    let config = GenerationConfig::reference();
    assert_eq!(generate_batch(&history, config, 0), Err(GenerationError::AttemptsExhausted));
    assert_eq!(generate_batch(&history, config, 9), Err(GenerationError::AttemptsExhausted));
}

#[test]
fn unmeetable_threshold_exhausts_the_attempts() {
    let history = wide_history();
    let config = GenerationConfig { overlap_threshold: 0, quota: 1, baseline_min_sum: 346, comparison: Corpus::AllRecords };
    assert_eq!(generate_batch(&history, config, 200), Err(GenerationError::AttemptsExhausted));
}

#[test]
fn reference_configuration_compares_with_every_record() {
    assert_eq!(GenerationConfig::reference().comparison, Corpus::AllRecords);
}

#[test]
fn corpus_policy_selects_the_records_compared_with() {
    let mut generated = historical(2, [7, 8, 9, 10, 11, 12]);
    generated.generated_by_rust = true;
    let history = vec![
        historical(1, [1, 2, 3, 4, 5, 6]),
        generated.clone(),
        historical(3, [10, 20, 30, 40, 50, 60]),
    ];
    assert_eq!(select_corpus(&history, Corpus::AllRecords), history);
    assert_eq!(
        select_corpus(&history, Corpus::DrawnOnly),
        vec![history[0].clone(), history[2].clone()]
    );
    assert!(select_corpus(&Vec::new(), Corpus::DrawnOnly).is_empty());
    assert!(select_corpus(&vec![generated], Corpus::DrawnOnly).is_empty());
}

#[test]
fn generated_records_block_only_where_the_policy_says_so() {
    let mut earlier = historical(2, [7, 8, 9, 10, 11, 12]);
    earlier.generated_by_rust = true;
    let history = vec![
        historical(1, [1, 2, 3, 4, 5, 6]),
        earlier,
        historical(3, [55, 56, 57, 58, 59, 60]),
    ];
    let close_to_generated = [7, 8, 9, 10, 30, 31];

    let everything = GenerationConfig {
        overlap_threshold: 4,
        quota: 1,
        baseline_min_sum: 346,
        comparison: Corpus::AllRecords,
    };
    let mut run = AdmissionLoop::start(&history, everything);
    assert_eq!(run.sum_range(), AdmissibleRange { min_sum: 21, max_sum: 345 });
    assert_eq!(run.offer(candidate(close_to_generated)), Verdict::RejectedByOverlap);

    let drawn_only = GenerationConfig { comparison: Corpus::DrawnOnly, ..everything };
    let mut run = AdmissionLoop::start(&history, drawn_only);
    assert_eq!(run.sum_range(), AdmissibleRange { min_sum: 21, max_sum: 345 });
    assert_eq!(run.offer(candidate(close_to_generated)), Verdict::Accepted);
    assert_eq!(run.state(), AdmissionState::QuotaMet);
}

#[test]
fn full_batch_holds_only_admissible_draws() {
    let history = wide_history();
    let config = GenerationConfig::reference();
    let range = estimate_sum_range(&history, config.baseline_min_sum);
    assert_eq!(range, AdmissibleRange { min_sum: 21, max_sum: 345 });
    let batch = generate_batch(&history, config, 100_000).unwrap();
    assert_eq!(batch.len(), 10);
    for draw in &batch {
        assert!(draw.is_playable());
        assert!(draw.generated_by_rust);
        assert!(!is_blocked(draw, &history, config.overlap_threshold));
        assert!(range.admits(draw.sum()));
        assert_eq!(evaluate(draw, &history, config.overlap_threshold, &range), Verdict::Accepted);
    }
}
