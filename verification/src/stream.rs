//! The output of the engine: putting an answer together from its items, and
//! passing the items on.

use vstd::prelude::*;
use vstd::string::*;

verus! {

/// One item of the engine's output.
#[derive(Debug)]
pub enum StreamItem {
    /// A decoded token, with its number
    Token(String, u32),
    /// The answer is complete
    Done,
    /// The answer broke off
    Error(String),
    /// Anything else
    Other,
}

/// Why a request was not answered.
#[derive(Debug)]
pub enum InferenceError {
    /// The task that serves the request did not run to its end; it does not
    /// where no model is loaded
    TaskFailed,
    /// The engine did not accept the request
    Refused(String),
    /// The answer broke off
    Stream(String),
}

/// What is wrong, in words.
pub open spec fn inference_error_text(e: InferenceError) -> Seq<char> {
    match e {
        InferenceError::TaskFailed => "Inference task failed"@,
        InferenceError::Refused(cause) => "Failed to add request: "@ + cause@,
        InferenceError::Stream(cause) => "Inference error: "@ + cause@,
    }
}

impl InferenceError {
    /// What is wrong, in words.
    pub fn message(&self) -> (r: String)
        ensures
            r@ == inference_error_text(*self),
            match *self {
                InferenceError::TaskFailed => r@ == "Inference task failed"@,
                InferenceError::Refused(cause) => r@ == "Failed to add request: "@ + cause@,
                InferenceError::Stream(cause) => r@ == "Inference error: "@ + cause@,
            },
    {
        match self {
            InferenceError::TaskFailed => "Inference task failed".to_owned(),
            InferenceError::Refused(cause) => {
                let mut r = "Failed to add request: ".to_owned();
                r.append(cause.as_str());
                r
            },
            InferenceError::Stream(cause) => {
                let mut r = "Inference error: ".to_owned();
                r.append(cause.as_str());
                r
            },
        }
    }
}

/// An answer while it is put together.
#[verifier::ext_equal]
pub enum Progress {
    /// More may come: the text so far and the number of its tokens
    Running { text: Seq<char>, tokens: nat },
    /// The whole text and the number of its tokens
    Complete { text: Seq<char>, tokens: nat },
    /// The reason why there is no answer
    Failed(Seq<char>),
}

/// The answer after one more item.
pub open spec fn advance(p: Progress, item: StreamItem) -> Progress {
    match p {
        Progress::Running { text, tokens } => match item {
            StreamItem::Token(piece, _) => Progress::Running {
                text: text + piece@,
                tokens: tokens + 1,
            },
            StreamItem::Done => Progress::Complete { text, tokens },
            StreamItem::Error(cause) => Progress::Failed(cause@),
            StreamItem::Other => p,
        },
        _ => p,
    }
}

/// The answer after all the items.
pub open spec fn after_items(items: Seq<StreamItem>) -> Progress
    decreases items.len(),
{
    if items.len() == 0 {
        Progress::Running { text: seq![], tokens: 0 }
    } else {
        advance(after_items(items.drop_last()), items.last())
    }
}

/// Whether the collector goes on after an item, and if not, why.
#[derive(Debug)]
pub enum CollectStep {
    /// Wait for the next item
    More,
    /// The answer is complete
    Complete,
    /// There is no answer
    Failed(InferenceError),
}

/// Puts an answer together from the items of the engine.
#[derive(Debug)]
pub struct StreamCollector {
    /// The text so far
    pub text: String,
    /// The number of its tokens
    pub tokens: usize,
}

impl View for StreamCollector {
    type V = Progress;

    open spec fn view(&self) -> Progress {
        Progress::Running { text: self.text@, tokens: self.tokens as nat }
    }
}

impl StreamCollector {
    /// A collector that has seen no item.
    pub fn new() -> (r: Self)
        ensures
            r@ == after_items(seq![]),
            r.text@ == Seq::<char>::empty(),
            r.tokens == 0,
    {
        let r = StreamCollector { text: String::new(), tokens: 0 };
        assert(r.text@ =~= seq![]);
        r
    }

    /// Take the next item, or `None` where no more will come.
    ///
    /// A token is added to the text; the end of the answer, or of the items,
    /// completes it; an error ends it without an answer; any other item is
    /// passed over.
    pub fn take(&mut self, item: Option<StreamItem>) -> (r: CollectStep)
        requires
            item is Some && item->0 is Token ==> old(self).tokens < usize::MAX,
        ensures
            match item {
                None => r is Complete && final(self)@ == old(self)@,
                Some(i) => match advance(old(self)@, i) {
                    Progress::Running { text, tokens } => r is More && final(self)@
                        == advance(old(self)@, i),
                    Progress::Complete { text, tokens } => {
                        &&& r is Complete
                        &&& final(self)@ == old(self)@
                        &&& final(self).text@ == text
                        &&& final(self).tokens == tokens
                    },
                    Progress::Failed(cause) => {
                        &&& r is Failed
                        &&& r->Failed_0 is Stream
                        &&& r->Failed_0->Stream_0@ == cause
                        &&& final(self)@ == old(self)@
                    },
                },
            },
            match item {
                Some(StreamItem::Token(piece, _)) => {
                    &&& r is More
                    &&& final(self).text@ == old(self).text@ + piece@
                    &&& final(self).tokens == old(self).tokens + 1
                },
                _ => {
                    &&& final(self).text@ == old(self).text@
                    &&& final(self).tokens == old(self).tokens
                },
            },
            r is Complete <==> item is None || item->0 is Done,
            r is Failed <==> item is Some && item->0 is Error,
            r is Failed ==> r->Failed_0 == InferenceError::Stream(item->0->Error_0),
    {
        match item {
            None => CollectStep::Complete,
            Some(StreamItem::Token(piece, _)) => {
                self.text.append(piece.as_str());
                self.tokens = self.tokens + 1;
                CollectStep::More
            },
            Some(StreamItem::Done) => CollectStep::Complete,
            Some(StreamItem::Error(cause)) => CollectStep::Failed(InferenceError::Stream(cause)),
            Some(StreamItem::Other) => CollectStep::More,
        }
    }

    /// The text and the number of its tokens.
    pub fn into_answer(self) -> (r: (String, usize))
        ensures
            r.0@ == self.text@,
            r.1 == self.tokens,
    {
        (self.text, self.tokens)
    }
}

/// Where the answer ends: at the first item that completes or breaks it, or
/// after all items.
pub open spec fn answer_end(items: Seq<StreamItem>, from: int) -> int
    decreases items.len() - from,
{
    if from >= items.len() || items[from] is Done || items[from] is Error {
        from
    } else {
        answer_end(items, from + 1)
    }
}

/// The texts of the tokens among the items, one after the other.
pub open spec fn token_text(items: Seq<StreamItem>) -> Seq<char>
    decreases items.len(),
{
    if items.len() == 0 {
        seq![]
    } else {
        match items.last() {
            StreamItem::Token(piece, _) => token_text(items.drop_last()) + piece@,
            _ => token_text(items.drop_last()),
        }
    }
}

/// The number of tokens among the items.
pub open spec fn token_count(items: Seq<StreamItem>) -> nat
    decreases items.len(),
{
    if items.len() == 0 {
        0
    } else {
        token_count(items.drop_last()) + if items.last() is Token {
            1nat
        } else {
            0nat
        }
    }
}

/// What `answer_end` finds.
proof fn lemma_answer_end(items: Seq<StreamItem>, from: int)
    requires
        0 <= from <= items.len(),
    ensures
        from <= answer_end(items, from) <= items.len(),
        answer_end(items, from) < items.len() ==> items[answer_end(items, from)] is Done
            || items[answer_end(items, from)] is Error,
        forall|i: int|
            from <= i < answer_end(items, from) ==> !(#[trigger] items[i] is Done)
                && !(items[i] is Error),
    decreases items.len() - from,
{
    if from < items.len() && !(items[from] is Done) && !(items[from] is Error) {
        lemma_answer_end(items, from + 1);
    }
}

/// The answer is made of the tokens before the item that ends it, in order and
/// without a gap; what follows that item has no part in it. It fails exactly
/// where the item that ends it is an error, and with the cause given there.
pub proof fn law_answer_is_the_tokens_before_the_end(items: Seq<StreamItem>)
    ensures
        ({
            let end = answer_end(items, 0);
            let text = token_text(items.take(end));
            let tokens = token_count(items.take(end));
            after_items(items) == if end == items.len() {
                Progress::Running { text, tokens }
            } else {
                match items[end] {
                    StreamItem::Error(cause) => Progress::Failed(cause@),
                    _ => Progress::Complete { text, tokens },
                }
            }
        }),
    decreases items.len(),
{
    lemma_answer_end(items, 0);
    if items.len() > 0 {
        let front = items.drop_last();
        let last = items.len() - 1;
        let end = answer_end(items, 0);
        lemma_answer_end(front, 0);
        law_answer_is_the_tokens_before_the_end(front);
        let front_end = answer_end(front, 0);
        assert(forall|i: int| 0 <= i < front.len() ==> #[trigger] front[i] == items[i]);
        if end < last {
            assert(front[end] == items[end]);
            if front_end < end {
                assert(items[front_end] == front[front_end]);
            } else if front_end > end {
                assert(!(front[end] is Done));
            }
            assert(front_end == end);
            assert(front.take(end) =~= items.take(end));
        } else {
            if front_end < last {
                assert(items[front_end] == front[front_end]);
            }
            assert(front_end == last);
            assert(front.take(last) =~= front);
            if end == last {
                assert(items.take(end) =~= front);
            } else {
                assert(items.take(end) =~= items);
            }
        }
    } else {
        assert(items.take(0) =~= items);
    }
}

/// The token texts among the items, put together, are what the answer's text
/// is made of.
proof fn lemma_token_pieces(items: Seq<StreamItem>)
    ensures
        token_text(items) == items.filter_map(
            |i: StreamItem|
                match i {
                    StreamItem::Token(piece, _) => Some(piece@),
                    _ => None,
                },
        ).flatten(),
        token_count(items) == items.filter_map(
            |i: StreamItem|
                match i {
                    StreamItem::Token(piece, _) => Some(piece@),
                    _ => None,
                },
        ).len(),
    decreases items.len(),
{
    let f = |i: StreamItem|
        match i {
            StreamItem::Token(piece, _) => Some(piece@),
            _ => None,
        };
    if items.len() == 0 {
        assert(items.filter_map(f) =~= Seq::<Seq<char>>::empty());
        assert(items.filter_map(f).flatten() =~= Seq::<char>::empty());
    } else {
        lemma_token_pieces(items.drop_last());
        let front = items.drop_last().filter_map(f);
        if let StreamItem::Token(piece, _) = items.last() {
            assert(items.filter_map(f) =~= front.push(piece@));
            front.lemma_flatten_push(piece@);
        }
    }
}

/// The text of an answer is the plain concatenation of the texts of its
/// tokens, nothing lost and nothing added, and its count is the number of
/// these tokens. They are the tokens before the item that ends the answer: the
/// first that completes or breaks it, if there is one.
pub proof fn law_answer_is_the_concatenation_of_its_tokens(items: Seq<StreamItem>, end: int)
    requires
        0 <= end <= items.len(),
        forall|i: int| 0 <= i < end ==> !(#[trigger] items[i] is Done) && !(items[i] is Error),
        end < items.len() ==> items[end] is Done || items[end] is Error,
    ensures
        ({
            let pieces = items.take(end).filter_map(
                |i: StreamItem|
                    match i {
                        StreamItem::Token(piece, _) => Some(piece@),
                        _ => None,
                    },
            );
            if end == items.len() {
                after_items(items) == (Progress::Running {
                    text: pieces.flatten(),
                    tokens: pieces.len(),
                })
            } else if items[end] is Done {
                after_items(items) == (Progress::Complete {
                    text: pieces.flatten(),
                    tokens: pieces.len(),
                })
            } else {
                after_items(items) == Progress::Failed(items[end]->Error_0@)
            }
        }),
{
    lemma_answer_end(items, 0);
    let found = answer_end(items, 0);
    if found < end {
        assert(!(items[found] is Done) && !(items[found] is Error));
    } else if end < found {
        assert(!(items[end] is Done) && !(items[end] is Error));
    }
    law_answer_is_the_tokens_before_the_end(items);
    lemma_token_pieces(items.take(end));
}

/// Every token of an answer stands in its text, character by character, from
/// the position that the lengths of the tokens before it add up to.
pub proof fn law_answer_keeps_every_token(items: Seq<StreamItem>, at: int, k: int)
    requires
        0 <= at < items.len(),
        items[at] is Token,
        forall|i: int| 0 <= i < items.len() ==> !(#[trigger] items[i] is Done) && !(
        items[i] is Error),
        0 <= k < items[at]->Token_0@.len(),
    ensures
        after_items(items) is Running,
        ({
            let before = items.take(at).filter_map(
                |i: StreamItem|
                    match i {
                        StreamItem::Token(piece, _) => Some(piece@),
                        _ => None,
                    },
            );
            let text = after_items(items)->Running_text;
            &&& before.flatten().len() + items[at]->Token_0@.len() <= text.len()
            &&& text[before.flatten().len() + k] == items[at]->Token_0@[k]
        }),
    decreases items.len(),
{
    let f = |i: StreamItem|
        match i {
            StreamItem::Token(piece, _) => Some(piece@),
            _ => None,
        };
    let front = items.drop_last();
    let last = items.len() - 1;
    law_answer_is_the_concatenation_of_its_tokens(items, items.len() as int);
    law_answer_is_the_concatenation_of_its_tokens(front, front.len() as int);
    assert(items.take(items.len() as int) =~= items);
    assert(front.take(front.len() as int) =~= front);
    lemma_token_pieces(items);
    lemma_token_pieces(front);
    if at == last {
        assert(items.take(at) =~= front);
    } else {
        assert(front[at] == items[at]);
        assert(front.take(at) =~= items.take(at));
        law_answer_keeps_every_token(front, at, k);
    }
}

/// The item that tells a streaming caller that the engine did not accept the
/// request.
pub fn refusal_item(cause: String) -> (r: StreamItem)
    ensures
        r is Error,
        r->Error_0@ == inference_error_text(InferenceError::Refused(cause)),
        r->Error_0@ == "Failed to add request: "@ + cause@,
{
    StreamItem::Error(InferenceError::Refused(cause).message())
}

/// What happens while items are passed on to a streaming caller.
#[derive(Debug)]
pub enum RelayEvent<T> {
    /// The engine gave an item
    Item(T),
    /// The engine has no more items
    Closed,
    /// The caller got the item
    Delivered,
    /// The caller is gone
    CallerGone,
}

/// What to do next while items are passed on.
#[derive(Debug)]
pub enum RelayAction<T> {
    /// Send the item to the caller
    Send(T),
    /// Wait for the next item of the engine
    Receive,
    /// The stream is over
    Stop,
}

/// The next action: items are passed on unchanged, until the engine has no
/// more or the caller is gone.
pub open spec fn relay_action<T>(event: RelayEvent<T>) -> RelayAction<T> {
    match event {
        RelayEvent::Item(item) => RelayAction::Send(item),
        RelayEvent::Delivered => RelayAction::Receive,
        RelayEvent::Closed => RelayAction::Stop,
        RelayEvent::CallerGone => RelayAction::Stop,
    }
}

/// The next action while items are passed on to a streaming caller.
pub fn relay<T>(event: RelayEvent<T>) -> (r: RelayAction<T>)
    ensures
        r == relay_action(event),
        match event {
            RelayEvent::Item(item) => r == RelayAction::Send(item),
            RelayEvent::Delivered => r is Receive,
            RelayEvent::Closed => r is Stop,
            RelayEvent::CallerGone => r is Stop,
        },
{
    match event {
        RelayEvent::Item(item) => RelayAction::Send(item),
        RelayEvent::Delivered => RelayAction::Receive,
        RelayEvent::Closed => RelayAction::Stop,
        RelayEvent::CallerGone => RelayAction::Stop,
    }
}

/// What a caller gets of the items if it is gone after taking `room` of them:
/// each item is offered, and the next one only once it was taken.
pub open spec fn relayed<T>(items: Seq<T>, room: nat) -> Seq<T>
    decreases items.len(),
{
    if items.len() == 0 {
        seq![]
    } else {
        match relay_action(RelayEvent::Item(items[0])) {
            RelayAction::Send(item) => if room == 0 {
                seq![]
            } else {
                seq![item] + relayed(items.drop_first(), (room - 1) as nat)
            },
            _ => seq![],
        }
    }
}

/// A caller gets the items of the engine unchanged and in order, up to the
/// point at which it leaves.
pub proof fn law_relay_keeps_items<T>(items: Seq<T>, room: nat)
    ensures
        relayed(items, room) == items.take(
            if room < items.len() {
                room as int
            } else {
                items.len() as int
            },
        ),
    decreases items.len(),
{
    let n = if room < items.len() {
        room as int
    } else {
        items.len() as int
    };
    if items.len() > 0 && room > 0 {
        law_relay_keeps_items(items.drop_first(), (room - 1) as nat);
        assert(seq![items[0]] + items.drop_first().take(n - 1) =~= items.take(n));
    } else {
        assert(items.take(n) =~= seq![]);
    }
}

} // verus!
