use hnefatafl::tensor::{dimension, of, Dimension, Tensor};

struct X;

struct Y;

struct Z;

fn get_xy(tensor: &Tensor<u32, 2>, x: usize, y: usize) -> u32 {
    tensor.get([of::<X>(x), of::<Y>(y)]).cloned().unwrap()
}

fn get_yx(tensor: &Tensor<u32, 2>, x: usize, y: usize) -> u32 {
    tensor.get([of::<Y>(y), of::<X>(x)]).cloned().unwrap()
}

#[test]
fn indexing_test() {
    let tensor = Tensor::new(vec![1, 2, 3, 4], [of::<X>(2), of::<Y>(2)]);
    assert_eq!(get_xy(&tensor, 0, 0), 1);
    assert_eq!(get_xy(&tensor, 0, 1), 2);
    assert_eq!(get_xy(&tensor, 1, 0), 3);
    assert_eq!(get_xy(&tensor, 1, 1), 4);
    assert_eq!(get_yx(&tensor, 0, 0), 1);
    assert_eq!(get_yx(&tensor, 0, 1), 2);
    assert_eq!(get_yx(&tensor, 1, 0), 3);
    assert_eq!(get_yx(&tensor, 1, 1), 4);
}

#[test]
fn three_dimensions_stride_by_what_follows() {
    let data: Vec<u32> = (0..24).collect();
    let tensor = Tensor::new(data, [of::<X>(2), of::<Y>(3), of::<Z>(4)]);
    // x * 12 + y * 4 + z
    assert_eq!(tensor.get([of::<X>(1), of::<Y>(2), of::<Z>(3)]).cloned(), Some(23));
    assert_eq!(tensor.get([of::<Z>(1), of::<X>(1), of::<Y>(0)]).cloned(), Some(13));
    assert_eq!(tensor.get([of::<Y>(2), of::<Z>(0), of::<X>(0)]).cloned(), Some(8));
}

#[test]
fn a_missing_dimension_gives_nothing() {
    let tensor = Tensor::new(vec![1, 2, 3, 4], [of::<X>(2), of::<Y>(2)]);
    assert_eq!(tensor.get([of::<X>(0), of::<Z>(0)]), None);
    assert_eq!(tensor.get([of::<X>(0), of::<X>(0)]), None);
    assert_eq!(tensor.get([of::<Y>(0), of::<Y>(1)]), None);
}

#[test]
fn an_index_past_the_memory_gives_nothing() {
    let tensor = Tensor::new(vec![1, 2, 3, 4], [of::<X>(2), of::<Y>(2)]);
    assert_eq!(tensor.get([of::<X>(2), of::<Y>(0)]), None);
    assert_eq!(tensor.get([of::<X>(1), of::<Y>(2)]), None);
    assert_eq!(tensor.get([of::<X>(usize::MAX), of::<Y>(1)]), None);
    assert_eq!(tensor.get([of::<X>(usize::MAX / 2 + 1), of::<Y>(usize::MAX)]), None);
}

#[test]
fn an_index_past_its_own_dimension_runs_on_into_the_next_row() {
    let tensor = Tensor::new(vec![1, 2, 3, 4], [of::<X>(2), of::<Y>(2)]);
    // 0 * 2 + 3
    assert_eq!(tensor.get([of::<X>(0), of::<Y>(3)]).cloned(), Some(4));
}

#[test]
fn an_empty_tensor_holds_nothing() {
    let tensor: Tensor<u32, 2> = Tensor::new(vec![], [of::<X>(0), of::<Y>(usize::MAX)]);
    assert_eq!(tensor.get([of::<X>(0), of::<Y>(0)]), None);
}

#[test]
fn dimensions_are_told_apart_by_their_types() {
    assert!(dimension::<X>() == dimension::<X>());
    assert!(dimension::<X>() == Dimension::new::<X>());
    assert!(dimension::<X>() != dimension::<Y>());
    assert_eq!(of::<X>(7).1, 7);
}

#[test]
fn duplicates_are_found() {
    let distinct = [of::<X>(1), of::<Y>(2), of::<Z>(3)];
    let first_two = [of::<X>(1), of::<X>(2), of::<Z>(3)];
    let last_two = [of::<X>(1), of::<Y>(2), of::<Y>(3)];
    let ends = [of::<X>(1), of::<Y>(2), of::<X>(3)];
    assert!(!hnefatafl::tensor::has_duplicates(&distinct));
    assert!(hnefatafl::tensor::has_duplicates(&first_two));
    assert!(hnefatafl::tensor::has_duplicates(&last_two));
    assert!(hnefatafl::tensor::has_duplicates(&ends));
    assert!(!hnefatafl::tensor::has_duplicates(&[]));
    assert!(hnefatafl::tensor::has(&distinct, dimension::<Z>()));
    assert!(!hnefatafl::tensor::has(&first_two, dimension::<Y>()));
}
