use phira_mp::ranking::{grade_of, rank, result_text, Accuracy, UserPlayedResult};

fn result(id: i32, score: i32) -> UserPlayedResult {
    UserPlayedResult {
        id,
        user_name: format!("player{id}"),
        score,
        accuracy: Accuracy { bits: 0.9876f32.to_bits(), percent: "98.76".to_string() },
        fc_state: false,
        finish_time: 0,
    }
}

fn ids(results: &[UserPlayedResult]) -> Vec<i32> {
    results.iter().map(|r| r.id).collect()
}

#[test]
fn grades_change_at_their_limits() {
    let expected = [
        (1000001, "纪"),
        (1000000, "φ"),
        (999999, "V"),
        (960000, "V"),
        (959999, "S"),
        (920000, "S"),
        (919999, "A"),
        (880000, "A"),
        (879999, "B"),
        (820000, "B"),
        (819999, "C"),
        (700000, "C"),
        (699999, "F"),
        (0, "F"),
        (-1, "F"),
    ];
    for (score, grade) in expected {
        assert_eq!(grade_of(score), grade, "{score}");
    }
}

#[test]
fn the_best_score_comes_first() {
    let results = vec![result(1, 5), result(2, 900000), result(3, -7), result(4, 1000000)];
    assert_eq!(ids(&rank(&results)), vec![4, 2, 1, 3]);
}

#[test]
fn equal_scores_keep_their_order() {
    let results = vec![result(1, 7), result(2, 9), result(3, 7), result(4, 9), result(5, 7)];
    assert_eq!(ids(&rank(&results)), vec![2, 4, 1, 3, 5]);
}

#[test]
fn no_results_rank_to_none() {
    assert!(rank(&Vec::new()).is_empty());
}

#[test]
fn a_result_is_read_out_with_all_its_parts() {
    let mut r = result(3, 965432);
    assert_eq!(
        result_text(1, &r),
        "第1  玩家:player3  等级:V  分数:0965432  ACC:98.76%  "
    );
    r.fc_state = true;
    r.score = 1000000;
    assert_eq!(
        result_text(12, &r),
        "第12  玩家:player3  等级:φ  分数:1000000  ACC:98.76%  Full Combo"
    );
}

#[test]
fn a_cloned_result_is_the_same() {
    let r = result(8, 123456);
    assert_eq!(r.clone(), r);
}
