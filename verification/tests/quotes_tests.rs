use tavern::quotes::Quotes;

#[test]
fn random_pleasant_quote() {
    let mean_quotes = vec!["You stink".to_string()];
    let pleasant_quotes = vec!["I love you".to_string()];
    let neutral_quotes = vec!["Just chillin'".to_string()];
    let quotes = Quotes::new(mean_quotes, neutral_quotes, pleasant_quotes);
    assert_eq!(quotes.random_pleasant_quote(), "I love you");
}

#[test]
fn random_mean_quote() {
    let mean_quotes = vec!["You stink".to_string()];
    let pleasant_quotes = vec!["I love you".to_string()];
    let neutral_quotes = vec!["Just chillin'".to_string()];
    let quotes = Quotes::new(mean_quotes, neutral_quotes, pleasant_quotes);
    assert_eq!(quotes.random_mean_quote(), "You stink");
}

#[test]
fn random_neutral_quote() {
    let mean_quotes = vec!["You stink".to_string()];
    let pleasant_quotes = vec!["I love you".to_string()];
    let neutral_quotes = vec!["Just chillin'".to_string()];
    let quotes = Quotes::new(mean_quotes, neutral_quotes, pleasant_quotes);
    assert_eq!(quotes.random_neutral_quote(), "Just chillin'");
}

#[test]
fn random_quote_is_one_of_the_list() {
    let mean = vec!["a".to_string(), "b".to_string(), "c".to_string()];
    let quotes = Quotes::new(mean.clone(), vec!["n".to_string()], vec!["p".to_string()]);
    for _ in 0..50 {
        let q = quotes.random_mean_quote();
        assert!(mean.iter().any(|m| m == q));
    }
}
