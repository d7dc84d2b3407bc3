use kibbled::catid::{
    derive_threshold, genuine_comparisons, group_samples, impostor_comparisons, Classifier, Margin,
    Ranking, ThresholdError, Unlabelled,
};

fn roster(c: &Classifier) -> Vec<(String, u32)> {
    c.cats().iter().map(|e| (e.name.clone(), e.count)).collect()
}

#[test]
fn identify_is_unknown_with_no_cats_enrolled() {
    assert_eq!(Classifier::new().identify(&vec![], 0), Ranking::Empty);
}

#[test]
fn label_then_identify_the_exact_same_vector_is_a_perfect_match() {
    let mut c = Classifier::new();
    assert_eq!(c.label("Rashy", true), Some(0));
    assert_eq!(c.identify(&vec![Some(1_000)], 500), Ranking::Known(0, None));
}

#[test]
fn identify_rejects_a_far_query_as_unknown_but_reports_the_best_guess() {
    let mut c = Classifier::new();
    c.label("Rashy", true);
    assert_eq!(c.identify(&vec![Some(0)], 900), Ranking::Rejected(0));
}

#[test]
fn second_best_is_reported_when_multiple_cats_are_enrolled() {
    let mut c = Classifier::new();
    c.label("Rashy", true);
    c.label("Ghost", true);
    c.label("Third", true);
    assert_eq!(c.identify(&vec![Some(1_000), Some(970), Some(3)], -1_000), Ranking::Known(0, Some(1)));
    assert_eq!(c.identify(&vec![Some(5), Some(970), Some(970)], 970), Ranking::Known(1, Some(2)));
}

#[test]
fn unlabel_prunes_a_cat_once_its_last_sample_is_removed() {
    let mut c = Classifier::new();
    c.label("Rashy", true);
    assert_eq!(c.cats().len(), 1);
    assert_eq!(c.unlabel("Rashy", true), Unlabelled::Pruned(0));
    assert_eq!(c.cats().len(), 0);
    assert_eq!(c.identify(&vec![], 0), Ranking::Empty);
}

#[test]
fn unlabel_of_an_unknown_cat_returns_false_and_changes_nothing() {
    let mut c = Classifier::new();
    c.label("Rashy", true);
    assert_eq!(c.unlabel("Ghost", true), Unlabelled::Nothing);
    assert_eq!(c.cats().len(), 1);
}

#[test]
fn relabelling_a_sample_from_one_cat_to_another_matches_labelling_it_there_directly() {
    let mut relabelled = Classifier::new();
    relabelled.label("Rashy", true);
    relabelled.label("Rashy", true);
    assert_eq!(relabelled.unlabel("Rashy", true), Unlabelled::Kept(0));
    relabelled.label("Ghost", true);
    let mut direct = Classifier::new();
    direct.label("Rashy", true);
    direct.label("Ghost", true);
    assert_eq!(roster(&relabelled), roster(&direct));
}

#[test]
fn ensure_cat_registers_a_zero_sample_cat_that_never_wins_identification() {
    let mut c = Classifier::new();
    c.ensure_cat("Ghost");
    c.ensure_cat("Ghost");
    assert_eq!(roster(&c), vec![("Ghost".to_string(), 0)]);
    assert_eq!(c.identify(&vec![Some(1_000)], -1_000), Ranking::Empty);
}

#[test]
fn derive_threshold_reports_not_enough_cats_with_only_one() {
    let cats = vec!["Rashy".to_string(), "Rashy".to_string()];
    assert_eq!(group_samples(&cats).unwrap_err(), ThresholdError::NotEnoughCats);
}

#[test]
fn derive_threshold_reports_not_enough_samples_per_cat_when_every_cat_has_exactly_one() {
    let cats = vec!["Rashy".to_string(), "Ghost".to_string()];
    let groups = group_samples(&cats).unwrap();
    assert!(genuine_comparisons(&groups).is_empty());
    assert_eq!(derive_threshold(&vec![], &vec![1, 2]), Err(ThresholdError::NotEnoughSamplesPerCat));
}

#[test]
fn derive_threshold_separates_two_tight_far_apart_clusters() {
    let cats: Vec<String> =
        ["Rashy", "Ghost", "Rashy", "Ghost", "Rashy", "Ghost"].iter().map(|s| s.to_string()).collect();
    let groups = group_samples(&cats).unwrap();
    assert_eq!(groups[0].members, vec![0, 2, 4]);
    let genuine = genuine_comparisons(&groups);
    assert_eq!(genuine, vec![(0, 0), (0, 2), (0, 4), (1, 1), (1, 3), (1, 5)]);
    let impostor = impostor_comparisons(&groups);
    assert_eq!(impostor, vec![(1, 0), (1, 2), (1, 4), (0, 1), (0, 3), (0, 5)]);
    let m = derive_threshold(&vec![99, 97, 98, 99, 96, 99], &vec![1, 2, 3, 4, 5, 0]).unwrap();
    assert_eq!(m, Margin { min_genuine: 4, max_impostor: Some(4), separable: true });
}

#[test]
fn derive_threshold_flags_non_separable_when_two_cats_share_identical_samples() {
    let m = derive_threshold(&vec![99, 99], &vec![99, 98]).unwrap();
    assert!(!m.separable);
}

#[test]
fn an_unusable_sample_changes_nothing() {
    let mut c = Classifier::new();
    assert_eq!(c.label("Rashy", false), None);
    assert!(c.cats().is_empty());
    c.label("Rashy", true);
    assert_eq!(c.unlabel("Rashy", false), Unlabelled::Nothing);
    assert_eq!(roster(&c), vec![("Rashy".to_string(), 1)]);
}

#[test]
fn cats_are_recounted_and_removed() {
    let mut c = Classifier::new();
    c.label("Rashy", true);
    assert_eq!(c.recompute_cat("Rashy", 0), 0);
    assert_eq!(c.recompute_cat("Ghost", 4), 1);
    assert_eq!(roster(&c), vec![("Rashy".to_string(), 0), ("Ghost".to_string(), 4)]);
    assert_eq!(c.remove_cat("Rashy"), Some(0));
    assert_eq!(c.remove_cat("Rashy"), None);
    assert_eq!(roster(&c), vec![("Ghost".to_string(), 4)]);
}
