use vstd::prelude::*;

use crate::action::{decode_action, parse_command, Action};
use crate::host::{opt_view, parse_url_host, url_host, url_parses};
use crate::message::{Message, MessageView, Role};

verus! {

/// The goal that a conversation starts with unless another is given.
pub const DEFAULT_GOAL: &'static str = "Visit 10 webpages.";

/// The instructions that a conversation starts with unless others are given.
pub const SYSTEM_PROMPT: &'static str = "You are an agent controlling a browser. You are given the URL of the current website, and a simplified markup description of the page contents, which looks like this:
<p id=0>text</p>
<link id=1 href=\"link url\">text</link>
<button id=2>text</button>
<input id=3>placeholder</input>
<img id=4 alt=\"image description\"/>

You are not given a goal but should create and alter a goal based on the previous actions you have taken. Your initial goal should be to visit at least 10 webpages and update your goal based on the content of those page.

You must respond with ONLY one of the following commands AND NOTHING ELSE:
    - CLICK X - click on a given element. You can only click on links, buttons, and inputs!
    - TYPE X \"TEXT\" - type the specified text into the input with id X and press ENTER
    - GOAL \"TEXT\" - Outputs your updated goal.
";

/// Why a request for the next action failed.
#[derive(Debug, Clone, PartialEq, Eq)]
pub enum ConversationError {
    /// The URL of the current page could not be parsed, or names no host.
    InvalidUrl,
    /// The completion service could not be reached or answered with an error.
    CompletionFailed(String),
    /// The completion service returned no reply.
    NoCompletionChoice,
    /// The reply is none of the commands; it is kept here as it came.
    ActionDecodeFailed(String),
}

/// A conversation with the language model that drives the browser.
#[derive(Debug)]
pub struct Conversation {
    goal: String,
    host: Option<String>,
    messages: Vec<Message>,
}

/// The mathematical value of a [`Conversation`].
pub struct ConversationView {
    pub goal: Seq<char>,
    /// The host of the last page seen, if a page was seen.
    pub host: Option<Seq<char>>,
    pub history: Seq<MessageView>,
}

impl View for Conversation {
    type V = ConversationView;

    closed spec fn view(&self) -> ConversationView {
        ConversationView {
            goal: self.goal@,
            host: opt_view(self.host),
            history: self.messages@.map_values(|m: Message| m@),
        }
    }
}

/// The history is never empty and opens with the system instructions.
pub open spec fn well_formed(c: ConversationView) -> bool {
    c.history.len() >= 1 && c.history[0].role == Role::System
}

/// The state after a page of host `host` is seen: the history shrinks to the
/// system instructions unless the host is the one seen last.
pub open spec fn after_host(c: ConversationView, host: Seq<char>) -> ConversationView {
    ConversationView {
        goal: c.goal,
        host: Some(host),
        history: if c.host == Some(host) {
            c.history
        } else {
            c.history.take(1)
        },
    }
}

/// The text of the message that asks for the next action.
pub open spec fn user_prompt(goal: Seq<char>, url: Seq<char>, page: Seq<char>) -> Seq<char> {
    "OBJECTIVE: "@ + goal + "\nCURRENT URL: "@ + url + "\nPAGE CONTENT: "@ + page
}

pub open spec fn user_message(goal: Seq<char>, url: Seq<char>, page: Seq<char>) -> MessageView {
    MessageView { role: Role::User, content: user_prompt(goal, url, page) }
}

/// Whether a URL is accepted as the address of the current page.
pub open spec fn url_accepted(url: Seq<char>) -> bool {
    url_parses(url) && url_host(url) is Some
}

/// The state after the request for the next action is sent, or `None` where
/// the URL is refused.
pub open spec fn after_prompt(c: ConversationView, url: Seq<char>, page: Seq<char>) -> Option<
    ConversationView,
> {
    if url_accepted(url) {
        let n = after_host(c, url_host(url)->0);
        Some(
            ConversationView {
                goal: n.goal,
                host: n.host,
                history: n.history.push(user_message(c.goal, url, page)),
            },
        )
    } else {
        None
    }
}

/// The state after the model's reply is recorded.
pub open spec fn after_reply(c: ConversationView, reply: MessageView) -> ConversationView {
    ConversationView { goal: c.goal, host: c.host, history: c.history.push(reply) }
}


/// No step removes or changes the system instructions at the head of the
/// history: seeing a page, sending a request and recording a reply all keep
/// them, so they stay first for every sequence of calls.
pub proof fn lemma_system_message_kept(
    c: ConversationView,
    host: Seq<char>,
    url: Seq<char>,
    page: Seq<char>,
    reply: MessageView,
)
    requires
        well_formed(c),
    ensures
        well_formed(after_host(c, host)),
        after_host(c, host).history[0] == c.history[0],
        after_prompt(c, url, page) matches Some(n) ==> well_formed(n) && n.history[0]
            == c.history[0],
        well_formed(after_reply(c, reply)),
        after_reply(c, reply).history[0] == c.history[0],
{
}

/// After a successful turn on a page, a request for a page of the same host
/// keeps the whole history and adds its own message after it.
pub proof fn lemma_same_host_accumulates(
    c: ConversationView,
    url1: Seq<char>,
    page1: Seq<char>,
    reply: MessageView,
    url2: Seq<char>,
    page2: Seq<char>,
)
    requires
        well_formed(c),
        url_accepted(url1),
        url_accepted(url2),
        url_host(url2) == url_host(url1),
    ensures
        ({
            let turn = after_reply(after_prompt(c, url1, page1)->0, reply);
            &&& after_prompt(turn, url2, page2) matches Some(n)
            &&& n.history.len() == turn.history.len() + 1
            &&& n.history.take(turn.history.len() as int) == turn.history
        }),
{
    let turn = after_reply(after_prompt(c, url1, page1)->0, reply);
    let n = after_prompt(turn, url2, page2)->0;
    assert(n.history.take(turn.history.len() as int) =~= turn.history);
}

/// After a turn on a page, a request for a page of another host starts from
/// the system instructions alone, then adds its own message.
pub proof fn lemma_host_change_resets(
    c: ConversationView,
    url1: Seq<char>,
    page1: Seq<char>,
    reply: MessageView,
    url2: Seq<char>,
    page2: Seq<char>,
)
    requires
        well_formed(c),
        url_accepted(url1),
        url_accepted(url2),
        url_host(url2) != url_host(url1),
    ensures
        ({
            let turn = after_reply(after_prompt(c, url1, page1)->0, reply);
            &&& after_prompt(turn, url2, page2) matches Some(n)
            &&& n.history == seq![c.history[0], user_message(turn.goal, url2, page2)]
        }),
{
    let turn = after_reply(after_prompt(c, url1, page1)->0, reply);
    let n = after_prompt(turn, url2, page2)->0;
    assert(turn.history[0] == c.history[0]);
    assert(n.history =~= seq![c.history[0], user_message(turn.goal, url2, page2)]);
}

/// The text of the message that asks for the next action.
pub fn build_user_prompt(goal: &str, url: &str, page_content: &str) -> (r: String)
    ensures
        r@ == user_prompt(goal@, url@, page_content@),
{
    let mut text = String::from_str("OBJECTIVE: ");
    text.append(goal);
    text.append("\nCURRENT URL: ");
    text.append(url);
    text.append("\nPAGE CONTENT: ");
    text.append(page_content);
    text
}

impl Conversation {
    /// A conversation with the default goal and system instructions.
    pub fn new() -> (r: Conversation)
        ensures
            well_formed(r@),
            r@.goal == DEFAULT_GOAL@,
            r@.host is None,
            r@.history == seq![MessageView { role: Role::System, content: SYSTEM_PROMPT@ }],
    {
        Conversation::with_prompt(String::from_str(DEFAULT_GOAL), String::from_str(SYSTEM_PROMPT))
    }

    /// A conversation with the given goal, whose history holds the given
    /// system instructions alone.
    pub fn with_prompt(goal: String, system_prompt: String) -> (r: Conversation)
        ensures
            well_formed(r@),
            r@.goal == goal@,
            r@.host is None,
            r@.history == seq![MessageView { role: Role::System, content: system_prompt@ }],
    {
        let mut messages: Vec<Message> = Vec::new();
        messages.push(Message::new(Role::System, system_prompt));
        let r = Conversation { goal, host: None, messages };
        assert(r@.history =~= seq![MessageView { role: Role::System, content: system_prompt@ }]);
        r
    }

    pub fn goal(&self) -> (r: &str)
        ensures
            r@ == self@.goal,
    {
        self.goal.as_str()
    }

    /// Replaces the goal that the next prompts state.
    pub fn set_goal(&mut self, goal: String)
        ensures
            final(self)@.goal == goal@,
            final(self)@.host == old(self)@.host,
            final(self)@.history == old(self)@.history,
    {
        self.goal = goal;
    }

    /// The host of the last page seen, if a page was seen.
    pub fn current_host(&self) -> (r: Option<&str>)
        ensures
            match r {
                Some(h) => self@.host == Some(h@),
                None => self@.host is None,
            },
    {
        match &self.host {
            Some(h) => Some(h.as_str()),
            None => None,
        }
    }

    /// The history, oldest message first.
    pub fn messages(&self) -> (r: &Vec<Message>)
        ensures
            r@.map_values(|m: Message| m@) == self@.history,
    {
        &self.messages
    }

    /// Records that a page of host `host` is seen: the history shrinks to the
    /// system instructions unless the host is the one seen last.
    pub fn apply_host(&mut self, host: String)
        requires
            well_formed(old(self)@),
        ensures
            well_formed(final(self)@),
            final(self)@ == after_host(old(self)@, host@),
    {
        let same = match &self.host {
            Some(h) => *h == host,
            None => false,
        };
        if !same {
            self.messages.truncate(1);
        }
        self.host = Some(host);
        assert(self@.history =~= after_host(old(self)@, host@).history);
    }

    /// Parses `url` and records its host as [`Conversation::apply_host`] does;
    /// a URL that does not parse or names no host changes nothing.
    pub fn enforce_context_length(&mut self, url: &str) -> (r: Result<(), ConversationError>)
        requires
            well_formed(old(self)@),
        ensures
            well_formed(final(self)@),
            r is Ok <==> url_accepted(url@),
            r is Ok ==> final(self)@ == after_host(old(self)@, url_host(url@)->0),
            r is Err ==> r == Err::<(), _>(ConversationError::InvalidUrl) && *final(self) == *old(
                self,
            ),
    {
        match parse_url_host(url) {
            Ok(Some(host)) => {
                self.apply_host(host);
                Ok(())
            },
            _ => Err(ConversationError::InvalidUrl),
        }
    }

    /// Sends the first half of a turn: maintains the context for the page at
    /// `url` and appends the message that asks for the next action. The
    /// history to hand to the completion service is then [`Conversation::messages`].
    pub fn begin_request(&mut self, url: &str, page_content: &str) -> (r: Result<
        (),
        ConversationError,
    >)
        requires
            well_formed(old(self)@),
        ensures
            well_formed(final(self)@),
            match after_prompt(old(self)@, url@, page_content@) {
                Some(n) => r is Ok && final(self)@ == n,
                None => r == Err::<(), _>(ConversationError::InvalidUrl) && *final(self) == *old(
                    self,
                ),
            },
    {
        self.enforce_context_length(url)?;
        let content = build_user_prompt(self.goal.as_str(), url, page_content);
        let ghost before = self@;
        self.messages.push(Message::new(Role::User, content));
        assert(self@.history =~= before.history.push(user_message(old(self)@.goal, url@, page_content@)));
        Ok(())
    }

    /// Takes the completion service's answer to the request: its error, or the
    /// replies it offers, best first. The first reply is appended to the
    /// history and decoded.
    pub fn finish_request(&mut self, response: Result<Vec<Message>, String>) -> (r: Result<
        Action,
        ConversationError,
    >)
        requires
            well_formed(old(self)@),
        ensures
            well_formed(final(self)@),
            match response {
                Err(e) => r == Err::<Action, _>(ConversationError::CompletionFailed(e))
                    && *final(self) == *old(self),
                Ok(choices) => if choices.len() == 0 {
                    r == Err::<Action, _>(ConversationError::NoCompletionChoice) && *final(self)
                        == *old(self)
                } else {
                    &&& final(self)@ == after_reply(old(self)@, choices[0]@)
                    &&& match parse_command(choices[0].content@) {
                        Some(a) => r matches Ok(action) && action@ == a,
                        None => r matches Err(ConversationError::ActionDecodeFailed(text)) && text@
                            == choices[0].content@,
                    }
                },
            },
    {
        match response {
            Err(e) => Err(ConversationError::CompletionFailed(e)),
            Ok(mut choices) => {
                if choices.len() == 0 {
                    return Err(ConversationError::NoCompletionChoice);
                }
                let ghost first = choices@[0];
                let reply = choices.remove(0);
                let decoded = decode_action(reply.content.as_str());
                let raw = reply.content.clone();
                let ghost before = self@;
                self.messages.push(reply);
                assert(self@.history =~= before.history.push(first@));
                match decoded {
                    Some(a) => Ok(a),
                    None => Err(ConversationError::ActionDecodeFailed(raw)),
                }
            },
        }
    }
}

} // verus!
