//! Answers to the slash command of a Slack workspace.

use vstd::prelude::*;
use vstd::string::StringExecFns;
use vstd::utf8::encode_utf8;
use crate::eval::Eval;
use crate::format::response;
use crate::ran;
use crate::respond;

verus! {

/// What Slack sends when a user gives the command.
pub struct SlackCommand {
    pub token: String,
    pub team_id: String,
    pub team_domain: String,
    pub channel_id: String,
    pub channel_name: String,
    pub user_id: String,
    pub user_name: String,
    pub command: String,
    pub text: String,
    pub response_url: String,
    pub trigger_id: String,
}

/// What is sent back to Slack.
pub struct SlackResponse {
    pub response_type: SlackResponseType,
    pub text: String,
}

/// Who sees a response: the whole channel, or the user alone.
#[derive(Clone, Copy, Debug, PartialEq)]
pub enum SlackResponseType {
    InChannel,
    Ephemeral,
}

/// How a response names the user `user_id`, so that Slack shows a mention.
pub open spec fn mention(user_id: Seq<char>) -> Seq<char> {
    "<@"@ + user_id + ">"@
}

/// The answer to a command: its text rolled for the user who gave it, shown
/// to the whole channel.
pub fn answer(eval: &mut Eval, command: &SlackCommand) -> (reply: SlackResponse)
    ensures
        reply.response_type == SlackResponseType::InChannel,
        reply.text@ == response(
            mention(command.user_id@),
            command.text@,
            ran(encode_utf8(command.text@), old(eval)@).0,
        ),
        final(eval)@ == ran(encode_utf8(command.text@), old(eval)@).1,
{
    let mut response_name = String::from_str("<@");
    response_name.append(command.user_id.as_str());
    response_name.append(">");
    let text = respond(eval, response_name.as_str(), command.text.as_str());
    SlackResponse { response_type: SlackResponseType::InChannel, text }
}

} // verus!
