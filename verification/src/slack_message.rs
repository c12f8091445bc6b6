use vstd::prelude::*;
use vstd::string::StringExecFns;

verus! {

/// The acknowledgement the messaging service returns for a posted message.
pub struct MessageResponse {
    pub ok: bool,
    pub error: Option<String>,
}

pub struct Message {
    pub text: String,
    pub message_type: String,
}

/// One formatted section of a stand-up message.
pub struct Block {
    pub block_type: String,
    pub text: Message,
}

/// The full message posted to the stand-up channel.
pub struct StandupMessage {
    pub blocks: Vec<Block>,
    pub channel: String,
    pub as_user: bool,
    pub mrkdwn: bool,
    pub text: String,
}

impl StandupMessage {
    /// A message of exactly one markdown section block carrying `text`,
    /// posted as the user to `channel`.
    pub fn new(channel: String, text: String) -> (m: StandupMessage)
        ensures
            m.blocks@.len() == 1,
            m.blocks@[0].block_type@ == "section"@,
            m.blocks@[0].text.text@ == text@,
            m.blocks@[0].text.message_type@ == "mrkdwn"@,
            m.channel@ == channel@,
            m.as_user == true,
            m.mrkdwn == true,
            m.text@ == text@,
    {
        let block = Block {
            block_type: "section".to_owned(),
            text: Message { text: text.clone(), message_type: "mrkdwn".to_owned() },
        };
        let mut blocks: Vec<Block> = Vec::new();
        blocks.push(block);
        StandupMessage { blocks, channel, as_user: true, mrkdwn: true, text }
    }
}

} // verus!
