use playground::{
    answer, answer_alternate, concat_decimals, concat_decimals_rev, cons, fold_add,
    fold_add_first, frame_due, join, prefixes, skip_front, suffixes, take_front, Apply, GameState,
    SharedState, Tup,
};

#[test]
fn test_fizz_buzz() {
    let expected: Vec<&str> = vec![
        "1", "2", "fizz", "4", "buzz", "fizz", "7", "8", "fizz", "buzz", "11", "fizz", "13", "14",
        "fizz buzz", "16", "17", "fizz", "19", "buzz", "fizz", "22", "23", "fizz", "buzz", "26",
        "fizz", "28", "29", "fizz buzz", "31", "32", "fizz", "34", "buzz", "fizz",
    ];
    let answers = (1..=36).map(answer).collect::<Vec<_>>();
    assert_eq!(answers, expected);
}

#[test]
fn answers_agree() {
    for turn in 0..100 {
        assert_eq!(answer(turn), answer_alternate(turn));
    }
}

#[test]
fn decimal_edges() {
    assert_eq!(answer(0), "fizz buzz");
    assert_eq!(answer(1), "1");
    assert_eq!(answer(7), "7");
    assert_eq!(answer(98), "98");
    assert_eq!(answer(1000003), "1000003");
}

#[test]
fn test_skip() {
    let result = skip_front(&vec![1, 2, 3, 4, 5], 3);
    assert_eq!(result, [4, 5]);
}

#[test]
fn test_take() {
    let result = take_front(&vec![1, 2, 3, 4, 5], 3);
    assert_eq!(result, [1, 2, 3]);
}

#[test]
fn test_join() {
    let result = join(&vec![1, 2, 3, 4, 5], &vec![6, 7, 8, 9, 10]);
    assert_eq!(result, [1, 2, 3, 4, 5, 6, 7, 8, 9, 10])
}

#[test]
fn test_iter() {
    let string = concat_decimals(&vec![1, 2, 3, 4, 5]);
    assert_eq!(string, "12345");
}

#[test]
fn test_iter_rev() {
    let string = concat_decimals_rev(&vec![1, 2, 3, 4, 5]);
    assert_eq!(string, "54321");
}

#[test]
fn test_fold_first() {
    let result = fold_add_first(&vec![1, 2, 3, 4, 5]);
    assert_eq!(result, 1 + 2 + 3 + 4 + 5);
}

#[test]
fn fold_with_seed() {
    assert_eq!(fold_add(&vec![1, 2, 3, 4, 5], 0), 15);
    let empty: Vec<i64> = vec![];
    assert_eq!(fold_add(&empty, 7), 7);
    assert_eq!(fold_add(&vec![-3, 3], -1), -1);
}

#[test]
fn test_fold_set() {
    let runs = suffixes(&vec![1, 2, 3, 4, 5]);
    assert_eq!(runs.len(), 5);
    assert_eq!(runs[0], [1, 2, 3, 4, 5]);
    assert_eq!(runs[1], [2, 3, 4, 5]);
    assert_eq!(runs[4], [5]);
}

#[test]
fn test_rfold_set() {
    let runs = prefixes(&vec![1, 2, 3, 4, 5]);
    assert_eq!(runs.len(), 5);
    assert_eq!(runs[0], [1, 2, 3, 4, 5]);
    assert_eq!(runs[1], [1, 2, 3, 4]);
    assert_eq!(runs[4], [1]);
}

#[test]
fn push_pop() {
    let comp = Tup(());
    println!("Comp: {:?}", comp);
    let comp = comp.push(1);
    println!("Comp: {:?}", comp);
    let comp = comp.push("Two");
    println!("Comp: {:?}", comp);
    let comp = comp.push(3.0);
    println!("Comp: {:?}", comp);
    let comp = comp.push('4');
    println!("Comp: {:?}", comp);
    let (comp, four) = comp.pop();
    println!("Comp: {:?}", comp);
    let (comp, three) = comp.pop();
    println!("Comp: {:?}", comp);
    let (comp, two) = comp.pop();
    println!("Comp: {:?}", comp);
    let (comp, one) = comp.pop();
    println!("Comp: {:?}", comp);
    println!("One: {:?}, Two: {:?}, Three: {:?}, Four: {:?}", one, two, three, four);
    assert_eq!(one, 1);
    assert_eq!(two, "Two");
    assert_eq!(three, 3.0);
    assert_eq!(four, '4');
}

fn invoke_fn_trait(func: &dyn Fn()) {
    func()
}

fn invoke_fn_object(func: fn()) {
    func()
}

fn plain_func() {
    println!("Hello func!");
}

#[test]
fn functions_as_arguments() {
    let simple_closure = || println!("Hello closure");

    let capture = "Capture";
    let capture_closure = || {
        println!("Hello {:?}!", capture);
    };

    invoke_fn_trait(&plain_func);
    invoke_fn_trait(&simple_closure);
    invoke_fn_trait(&capture_closure);

    invoke_fn_object(plain_func);
    invoke_fn_object(simple_closure);
}

#[test]
fn cons_accessors() {
    let pair = cons(3, "tail");
    assert_eq!(*pair.car(), 3);
    assert_eq!(*pair.cdr(), "tail");
    assert_eq!(pair.into_car(), 3);
    let pair = cons('h', 9u64);
    assert_eq!(pair.into_cdr(), 9u64);
    let made = playground::Cons::from((1, 2));
    assert_eq!(*made.car(), 1);
    assert_eq!(*made.cdr(), 2);
}

#[test]
fn apply_pipelines() {
    let doubled = 21i64.apply(|n| n * 2);
    assert_eq!(doubled, 42);
    let spelled = 5usize.apply(|n| n + 1).apply(|n| format!("{}", n));
    assert_eq!(spelled, "6");
}

#[test]
fn double_buffer_handover() {
    let mut shared = SharedState::new(GameState::new(0));
    assert!(!shared.warmed_up());
    shared.publish(GameState::new(1));
    let (_, newest) = shared.consume();
    assert_eq!(newest.iteration, 1);
    assert!(!shared.warmed_up());
    shared.publish(GameState::new(2));
    let (older, newer) = shared.consume();
    assert_eq!(older.iteration, 1);
    assert_eq!(newer.iteration, 2);
    assert!(shared.warmed_up());
}

#[test]
fn list_ops_edges() {
    let empty: Vec<i32> = vec![];
    assert_eq!(skip_front(&empty, 0), Vec::<i32>::new());
    assert_eq!(take_front(&vec![8, 9], 0), Vec::<i32>::new());
    assert_eq!(join(&empty, &vec![4]), [4]);
    assert_eq!(suffixes(&empty).len(), 0);
    assert_eq!(prefixes(&empty).len(), 0);
    let one = concat_decimals(&vec![40]);
    assert_eq!(one, "40");
}

#[test]
fn frame_timing() {
    assert!(frame_due(33, 33));
    assert!(frame_due(40, 33));
    assert!(!frame_due(32, 33));
}
