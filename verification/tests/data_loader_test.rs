use llm_training_rust::data_loader::DataLoader;

#[test]
fn test_data_loader_len_and_batches() {
    // Nine ids, batches of two sequences of two: (9 - 1) / 4 = 2 batches.
    let data: Vec<usize> = vec![0, 1, 2, 3, 4, 5, 6, 7, 8];
    let loader = DataLoader::new(data, 2, 2);
    assert_eq!(loader.len(), 2);

    let mut it = loader.iter();
    let (input, target) = it.next(&loader).unwrap();
    assert_eq!(input, vec![0, 1, 2, 3]);
    assert_eq!(target, vec![1, 2, 3, 4]);

    let (input, target) = it.next(&loader).unwrap();
    assert_eq!(input, vec![4, 5, 6, 7]);
    assert_eq!(target, vec![5, 6, 7, 8]);
}

#[test]
fn test_data_loader_wraps_to_start() {
    let data: Vec<usize> = vec![10, 11, 12, 13, 14];
    let loader = DataLoader::new(data, 1, 2);
    let mut it = loader.iter();
    let (first_input, _) = it.next(&loader).unwrap();
    let (_, _) = it.next(&loader).unwrap();
    // The remaining tail cannot fill a batch, so the cursor wraps.
    let (wrapped_input, wrapped_target) = it.next(&loader).unwrap();
    assert_eq!(wrapped_input, first_input);
    assert_eq!(wrapped_input, vec![10, 11]);
    assert_eq!(wrapped_target, vec![11, 12]);
}
