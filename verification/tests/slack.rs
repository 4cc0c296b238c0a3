use dice_roll::eval::Eval;
use dice_roll::slack::{answer, SlackCommand, SlackResponseType};

fn command(user_id: &str, text: &str) -> SlackCommand {
    SlackCommand {
        token: String::from("token"),
        team_id: String::from("T1"),
        team_domain: String::from("team"),
        channel_id: String::from("C1"),
        channel_name: String::from("general"),
        user_id: String::from(user_id),
        user_name: String::from("someone"),
        command: String::from("/roll"),
        text: String::from(text),
        response_url: String::from("https://example.invalid/response"),
        trigger_id: String::from("1.2.3"),
    }
}

#[test]
fn the_answer_mentions_the_user_in_the_channel() {
    let mut eval = Eval::new_with_seed(1);
    let reply = answer(&mut eval, &command("U2147483697", "1+2*3, 5/0"));
    assert_eq!(reply.response_type, SlackResponseType::InChannel);
    assert_eq!(
        reply.text,
        "<@U2147483697> rolled ... 1+2*3, 5/0\nThey got ... 7 divide by zero\n"
    );
}

#[test]
fn the_answer_to_a_text_that_does_not_parse() {
    let mut eval = Eval::new_with_seed(1);
    let reply = answer(&mut eval, &command("U1", "2d"));
    assert_eq!(reply.response_type, SlackResponseType::InChannel);
    assert_eq!(
        reply.text,
        "<@U1> rolled ... 2d\nThey got ... error ... Mismatch { message: \"expect end of input, found: 100\", position: 1 }\n"
    );
}

#[test]
fn the_answer_throws_the_dice_of_its_evaluator() {
    let mut first = Eval::new_with_seed(8);
    let mut second = Eval::new_with_seed(8);
    for _ in 0..10 {
        let one = answer(&mut first, &command("U1", "4d6"));
        let other = answer(&mut second, &command("U1", "4d6"));
        assert_eq!(one.text, other.text);
    }
}
