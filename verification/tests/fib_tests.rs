use prime_snarks::fib::fibonacci;

#[test]
fn test_fibonacci() {
    let a = 0;
    let b = 1;
    let num_of_steps = 10;
    let result = fibonacci(num_of_steps, a, b);
    assert_eq!(result, 89);
}

#[test]
fn fibonacci_equal_seeds_ten_steps() {
    // ten summing rounds from seeds (1, 1) land one past 89
    let result = fibonacci(10, 1, 1);
    assert_eq!(result, 144);
}

#[test]
fn test3_fibonacci() {
    let a = 1;
    let b = 1;
    let num_of_steps = 1;
    let result = fibonacci(num_of_steps, a, b);
    assert_eq!(result, 2);
}

#[test]
fn test4_fibonacci() {
    let a = 0;
    let b = 1;
    let num_of_steps = 10;
    let result = fibonacci(num_of_steps, a, b);
    assert_eq!(result, 89);
}

#[test]
fn fibonacci_zero_steps_yields_zero() {
    assert_eq!(fibonacci(0, 5, 9), 0);
}

#[test]
fn fibonacci_large_seeds() {
    // 3, 4, 7, 11, 18, 29
    assert_eq!(fibonacci(4, 3, 4), 29);
}
