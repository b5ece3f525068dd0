use backend::user::{calculate_hybrid, Hybrid, User};

fn hybrid_value(h: &Hybrid) -> f64 {
    if h.den == 0 {
        0.0
    } else {
        h.num as f64 / h.den as f64
    }
}

fn example_user() -> User {
    // Weights are fixed-point with a scale of 100: 5 stands for 0.05.
    let initial_emotion: Vec<i64> = vec![5; 21];
    let initial_spiral: Vec<i64> = vec![12, 18, 25, 15, 10, 8, 7, 5];
    User::new(
        "user_123".to_string(),
        "user@nomodia.com".to_string(),
        "Nomodiac".to_string(),
        "@nomodiac".to_string(),
        "@nomodiac".to_string(),
        "@nomodiac".to_string(),
        initial_emotion,
        initial_spiral,
    )
}

#[test]
fn test_one() {
    let mut user = example_user();

    println!("Initial hybrid scores:");
    println!("Emotion: {:.2}", hybrid_value(&user.current_emotion_hybrid));
    println!("Spiral: {:.2}", hybrid_value(&user.current_spiral_hybrid));

    // Update emotional state
    let new_emotion: Vec<i64> = vec![8; 21];
    user.update_emotion(new_emotion);

    println!("\nAfter emotional update:");
    println!("Emotion: {:.2}", hybrid_value(&user.current_emotion_hybrid));
    println!("History entries: {}", user.emotion_history.len());
}

#[test]
fn hybrid_of_example_profile() {
    // A uniform emotion vector averages the indices 0..=20, so the hybrid
    // score is exactly 10; the spiral example works out to 270/100.
    let user = example_user();
    assert_eq!(hybrid_value(&user.current_emotion_hybrid), 10.0);
    assert_eq!(user.current_spiral_hybrid.num, 270);
    assert_eq!(user.current_spiral_hybrid.den, 100);
    assert!((hybrid_value(&user.current_spiral_hybrid) - 2.70).abs() < 1e-12);
}

#[test]
fn hybrid_weighted_average_exact() {
    // hybrid([0, 2, 2]) = (0*0 + 1*2 + 2*2) / (0 + 2 + 2) = 6/4 = 1.5
    let h = calculate_hybrid(&vec![0, 2, 2]);
    assert_eq!(h.num, 6);
    assert_eq!(h.den, 4);
    assert_eq!(hybrid_value(&h), 1.5);
}

#[test]
fn hybrid_of_all_zero_vector_is_zero() {
    let h = calculate_hybrid(&vec![0; 21]);
    assert_eq!(h.num, 0);
    assert_eq!(h.den, 0);
    assert_eq!(hybrid_value(&h), 0.0);
}

#[test]
fn hybrid_with_negative_weights() {
    // Weights may have any sign; hybrid([-3, 1]) = (1*1) / (-3 + 1) = -0.5
    let h = calculate_hybrid(&vec![-3, 1]);
    assert_eq!(h.num, 1);
    assert_eq!(h.den, -2);
    assert_eq!(hybrid_value(&h), -0.5);
}

#[test]
fn update_emotion_appends_previous_vector() {
    let mut user = example_user();
    let first: Vec<i64> = vec![5; 21];
    let second: Vec<i64> = vec![8; 21];
    let mut third: Vec<i64> = vec![0; 21];
    third[20] = 7;

    user.update_emotion(second.clone());
    user.update_emotion(third.clone());
    assert_eq!(user.emotion_history.len(), 2);
    assert_eq!(user.emotion_history[0], first);
    assert_eq!(user.emotion_history[1], second);
    assert_eq!(user.current_emotion, third);
    // All the weight sits at the last index, so the hybrid score is 20.
    assert_eq!(hybrid_value(&user.current_emotion_hybrid), 20.0);

    user.update_emotion(first.clone());
    assert_eq!(user.emotion_history.len(), 3);
    assert_eq!(user.emotion_history[2], third);
}

#[test]
fn update_spiral_appends_previous_vector() {
    let mut user = example_user();
    let first: Vec<i64> = vec![12, 18, 25, 15, 10, 8, 7, 5];
    let next: Vec<i64> = vec![0, 0, 0, 0, 0, 0, 0, 100];

    user.update_spiral(next.clone());
    assert_eq!(user.spiral_history.len(), 1);
    assert_eq!(user.spiral_history[0], first);
    assert_eq!(user.current_spiral, next);
    assert_eq!(hybrid_value(&user.current_spiral_hybrid), 7.0);
    // The emotion side is untouched.
    assert_eq!(user.emotion_history.len(), 0);
    assert_eq!(hybrid_value(&user.current_emotion_hybrid), 10.0);
}
