use aligned_nearest_neighbor::identity::Identity;
use aligned_nearest_neighbor::nearest_neighbor::{
    compute_nearest_neighbors, compute_nearest_neighbors_single, compute_store_nearest_neighbors,
    filter_records, NeighborResult,
};
use aligned_nearest_neighbor::record::Record;
use aligned_nearest_neighbor::{parse_all_records, parse_record_ids};

#[test]
fn test_query_db_match() {
    let fasta = b">query_1\nAAAAAAAAAAAAA\n>query_2\nCCCCCCCCCCCCC\n>db_1\nAAAAAAAAAAAAA\n>db_2\nCCCCCCCCCCCCA\n";
    let db_txt = "db_1\ndb_2\n";
    let query_txt = "query_1\nquery_2\n";

    let db_ids = parse_record_ids(db_txt);
    let query_ids = parse_record_ids(query_txt);
    let records = parse_all_records(fasta).unwrap();

    let query_records: Vec<&Record> = filter_records(&records, Some(query_ids));
    let db_records: Vec<&Record> = filter_records(&records, Some(db_ids));
    let results = compute_nearest_neighbors(&query_records, &db_records).unwrap();

    assert_eq!(results.len(), 2);
    assert_eq!(results.len(), query_records.len());

    let (res, dist) = results[0];
    assert_eq!(res.id(), "db_1");
    assert_eq!(dist.matched, 13);

    let (res, dist) = results[1];
    assert_eq!(res.id(), "db_2");
    assert_eq!(dist.matched, 12);
    assert_eq!(dist.compared, 13);
}

#[test]
fn two_equal_records_without_filters() {
    let records = vec![Record::new("A", b"AAAA"), Record::new("B", b"AAAA")];
    let rows = compute_store_nearest_neighbors(records, None, None).unwrap();
    assert_eq!(rows.len(), 2);
    assert_eq!(rows[0].query_id, "A");
    assert_eq!(rows[0].neighbor_id, "B");
    assert_eq!(rows[0].score, Identity { matched: 4, compared: 4 });
    assert_eq!((rows[0].score.matched as f32) / (rows[0].score.compared as f32), 1.0);
    // The query itself is a candidate, and the last of the best ones wins.
    assert_eq!(rows[1].query_id, "B");
    assert_eq!(rows[1].neighbor_id, "B");
    assert_eq!(rows[1].score, Identity { matched: 4, compared: 4 });
}

#[test]
fn the_last_of_equal_candidates_wins() {
    let query = Record::new("q", b"ACGT");
    let a = Record::new("a", b"ACGA");
    let b = Record::new("b", b"ACGC");
    let c = Record::new("c", b"AAAA");
    let d = Record::new("d", b"TCGT");
    let collection = vec![&a, &b, &c, &d];
    let (best, score) = compute_nearest_neighbors_single(&query, &collection);
    assert_eq!(best.id(), "d");
    assert_eq!(score, Identity { matched: 3, compared: 4 });

    let collection = vec![&d, &c, &b, &a];
    let (best, _) = compute_nearest_neighbors_single(&query, &collection);
    assert_eq!(best.id(), "a");
}

#[test]
fn the_highest_identity_wins_wherever_it_stands() {
    let query = Record::new("q", b"ACGT");
    let exact = Record::new("exact", b"ACGT");
    let near = Record::new("near", b"ACGA");
    let far = Record::new("far", b"TTTT");
    for collection in [
        vec![&exact, &near, &far],
        vec![&near, &exact, &far],
        vec![&far, &near, &exact],
    ] {
        let (best, score) = compute_nearest_neighbors_single(&query, &collection);
        assert_eq!(best.id(), "exact");
        assert_eq!(score, Identity { matched: 4, compared: 4 });
    }
}

#[test]
fn fractions_with_different_denominators_are_ranked() {
    // 2 of 3 compared positions against 3 of 5.
    let query = Record::new("q", b"AAA--");
    let two_of_three = Record::new("x", b"AAC--");
    let three_of_five = Record::new("y", b"AAACC");
    let collection = vec![&two_of_three, &three_of_five];
    let (best, score) = compute_nearest_neighbors_single(&query, &collection);
    assert_eq!(best.id(), "x");
    assert_eq!(score, Identity { matched: 2, compared: 3 });
}

#[test]
fn a_candidate_that_shares_no_position_scores_zero() {
    let query = Record::new("q", b"--");
    let gaps = Record::new("gaps", b"--");
    let other = Record::new("other", b"AC");
    let only = vec![&gaps];
    let (best, score) = compute_nearest_neighbors_single(&query, &only);
    assert_eq!(best.id(), "gaps");
    assert_eq!(score, Identity { matched: 0, compared: 0 });

    // Zero of two is no better than nothing compared: the later one wins.
    let both = vec![&gaps, &other];
    let (best, score) = compute_nearest_neighbors_single(&query, &both);
    assert_eq!(best.id(), "other");
    assert_eq!(score, Identity { matched: 0, compared: 2 });
    let both = vec![&other, &gaps];
    let (best, _) = compute_nearest_neighbors_single(&query, &both);
    assert_eq!(best.id(), "gaps");
}

#[test]
fn results_follow_the_queries() {
    let records: Vec<Record> = (0..40u8)
        .map(|i| {
            let seq: Vec<u8> = (0..16u8).map(|p| if (p + i) % 5 == 0 { b'-' } else { b"ACGT"[((p * i) % 4) as usize] }).collect();
            Record::new(&format!("r{}", i), &seq)
        })
        .collect();
    let queries: Vec<&Record> = records.iter().take(25).collect();
    let db: Vec<&Record> = records.iter().skip(10).collect();
    let results = compute_nearest_neighbors(&queries, &db).unwrap();
    assert_eq!(results.len(), queries.len());
    for (query, result) in queries.iter().zip(results.iter()) {
        assert_eq!(*result, compute_nearest_neighbors_single(query, &db));
    }
}

#[test]
fn the_number_of_workers_changes_nothing() {
    let records: Vec<Record> = (0..64u8)
        .map(|i| {
            let seq: Vec<u8> = (0..24u8).map(|p| if (p * 3 + i) % 7 == 0 { b'-' } else { b"ACGT"[((p + i * i) % 4) as usize] }).collect();
            Record::new(&format!("r{}", i), &seq)
        })
        .collect();
    let queries: Vec<&Record> = records.iter().collect();
    let db: Vec<&Record> = records.iter().rev().collect();
    let mut outcomes = Vec::new();
    for workers in [1, 2, queries.len()] {
        let pool = rayon::ThreadPoolBuilder::new().num_threads(workers).build().unwrap();
        let results = pool.install(|| compute_nearest_neighbors(&queries, &db).unwrap());
        let shown: Vec<String> = queries
            .iter()
            .zip(results.iter())
            .map(|(q, (n, s))| format!("{}\t{}\t{}/{}", q.id(), n.id(), s.matched, s.compared))
            .collect();
        outcomes.push(shown);
    }
    assert_eq!(outcomes[0].len(), 64);
    assert_eq!(outcomes[0], outcomes[1]);
    assert_eq!(outcomes[0], outcomes[2]);
}

#[test]
fn no_queries_give_no_results() {
    let queries: Vec<&Record> = Vec::new();
    let db: Vec<&Record> = Vec::new();
    assert_eq!(compute_nearest_neighbors(&queries, &db).unwrap().len(), 0);
    let records = vec![Record::new("A", b"AAAA"), Record::new("B", b"AAAA")];
    let rows = compute_store_nearest_neighbors(records, Some(vec!["nobody".to_string()]), None).unwrap();
    assert!(rows.is_empty());
}

#[test]
fn stored_rows_respect_both_lists() {
    let records = vec![
        Record::new("q1", b"AAAA"),
        Record::new("d1", b"AAAC"),
        Record::new("q2", b"CCCC"),
        Record::new("d2", b"CCCA"),
        Record::new("d3", b"AAAA"),
    ];
    let query_ids = Some(vec!["q2".to_string(), "q1".to_string()]);
    let db_ids = Some(vec!["d1".to_string(), "d2".to_string()]);
    let rows = compute_store_nearest_neighbors(records, query_ids, db_ids).unwrap();
    assert_eq!(
        rows,
        vec![
            NeighborResult {
                query_id: "q1".to_string(),
                neighbor_id: "d1".to_string(),
                score: Identity { matched: 3, compared: 4 },
            },
            NeighborResult {
                query_id: "q2".to_string(),
                neighbor_id: "d2".to_string(),
                score: Identity { matched: 3, compared: 4 },
            },
        ]
    );
}

#[test]
fn a_row_is_written_with_tabs() {
    let row = NeighborResult {
        query_id: "query".to_string(),
        neighbor_id: "neighbour".to_string(),
        score: Identity { matched: 3, compared: 4 },
    };
    assert_eq!(row.line("0.75"), "query\tneighbour\t0.75");
    assert_eq!(row.line(""), "query\tneighbour\t");
}
