use blockchain::conversion::{EvenNumber, Number};
use blockchain::custom_types::List;
use blockchain::peano::{test_is_nat, Lt, ProofLt, _0, _1, _2, _3, _4, _5};
use blockchain::voting::{VoteError, VotingService};

#[test]
fn main() {
    test_is_nat::<_0>();
    test_is_nat::<_1>();
    test_is_nat::<_2>();
    test_is_nat::<_3>();
    test_is_nat::<_4>();
    test_is_nat::<_5>();
    ProofLt::<_1, _3>::check();
}

#[test]
fn vote_confirmations() {
    let service = VotingService::default();
    assert_eq!(
        service.vote(0, "example.com"),
        Ok("Upvote for example.com confirmed!".to_string())
    );
    assert_eq!(
        service.vote(1, "example.com"),
        Ok("Downvote for example.com confirmed!".to_string())
    );
    assert_eq!(service.vote(2, "example.com"), Err(VoteError::OutOfRange));
}

#[test]
fn number_conversions() {
    let num = Number::from(42);
    assert_eq!(num.value, 42);
    let num: Number = 5.into();
    assert_eq!(num.value, 5);
}

#[test]
fn even_number_conversions() {
    assert_eq!(EvenNumber::try_from(8), Ok(EvenNumber(8)));
    assert_eq!(EvenNumber::try_from(5), Err(()));
}

#[test]
fn linked_list() {
    let mut list = List::new();
    list = list.cons(1);
    list = list.cons(2);
    list = list.cons(3);
    assert_eq!(list.len(), 3);
    assert_eq!(list.string_of_t(), "3, 2, 1, Nil");
}
