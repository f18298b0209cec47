//! Decision logic of the password read loop.
//!
//! The loop itself blocks on a terminal, so it lives with the caller; what
//! stands here is every decision it makes: which character finishes the
//! line, which discards everything typed so far, how a decode failure is
//! recovered, and how the terminal's mode flags are derived and restored.
use vstd::prelude::*;
use crate::passstr::SecStr;
use crate::passstr::push_digest;

verus! {

/// One attempt to read a character from the input stream.
#[derive(Clone, Copy, PartialEq, Eq, Structural)]
pub enum ReadEvent {
    /// A character was decoded.
    Received(char),
    /// The bytes read could not be decoded as a character.
    DecodeFailed,
}

/// What the caller of `process_event` must do next.
#[derive(Clone, Copy, PartialEq, Eq, Structural)]
pub enum StepOutcome {
    /// The line is complete; stop reading.
    Finished,
    /// The accumulated input was discarded; tell the user to retype.
    Retype,
    /// The character was folded into the buffer; keep reading.
    Accepted,
}

/// The event that completes the read: a newline was received.
pub open spec fn is_terminator(ev: ReadEvent) -> bool {
    ev == ReadEvent::Received('\n')
}

/// The event that discards the accumulated input: the abort character was
/// received, or one read could not be decoded.
pub open spec fn is_reset(ev: ReadEvent) -> bool {
    ev == ReadEvent::Received('\x08') || ev == ReadEvent::DecodeFailed
}

/// The buffer content after one event: unchanged on the terminator, empty
/// after an abort or a decode failure, and one fold-on-append step otherwise.
pub open spec fn step_content(content: Seq<u8>, ev: ReadEvent) -> Seq<u8> {
    if is_terminator(ev) {
        content
    } else if is_reset(ev) {
        Seq::<u8>::empty()
    } else {
        push_digest(content, ev->Received_0)
    }
}

/// The buffer content after feeding a sequence of events to a buffer that
/// starts with the given content: events are folded in order until the first
/// terminator, or until they run out.
pub open spec fn read_result_from(content: Seq<u8>, events: Seq<ReadEvent>) -> Seq<u8>
    decreases events.len(),
{
    if events.len() == 0 {
        content
    } else if is_terminator(events[0]) {
        content
    } else {
        read_result_from(step_content(content, events[0]), events.skip(1))
    }
}

/// The buffer content a whole read yields: the events folded from an empty
/// buffer.
pub open spec fn read_result(events: Seq<ReadEvent>) -> Seq<u8> {
    read_result_from(Seq::<u8>::empty(), events)
}

/// Apply one event of the read loop to the buffer: a newline finishes the
/// read and leaves the buffer as it is; the abort character or a decode
/// failure discards everything accumulated so far; any other character is
/// folded in.
pub fn process_event(password: &mut SecStr, ev: ReadEvent) -> (outcome: StepOutcome)
    ensures
        final(password)@ == step_content(old(password)@, ev),
        outcome == StepOutcome::Finished <==> is_terminator(ev),
        outcome == StepOutcome::Retype <==> is_reset(ev),
{
    match ev {
        ReadEvent::Received(c) => {
            if c == '\n' {
                StepOutcome::Finished
            } else if c == '\x08' {
                *password = SecStr::new();
                StepOutcome::Retype
            } else {
                password.push(c);
                StepOutcome::Accepted
            }
        },
        ReadEvent::DecodeFailed => {
            *password = SecStr::new();
            StepOutcome::Retype
        },
    }
}

/// Run the whole read loop over a sequence of events, starting from an empty
/// buffer and stopping at the first terminator.
pub fn process_events(events: &Vec<ReadEvent>) -> (r: SecStr)
    ensures
        r@ == read_result(events@),
{
    let mut password = SecStr::new();
    let n = events.len();
    let mut i: usize = 0;
    proof {
        assert(events@.skip(0) =~= events@);
    }
    while i < n
        invariant
            n == events@.len(),
            0 <= i <= n,
            forall|j: int| 0 <= j < i ==> !is_terminator(events@[j]),
            read_result_from(password@, events@.skip(i as int)) == read_result(events@),
        decreases n - i,
    {
        let outcome = process_event(&mut password, events[i]);
        proof {
            assert(events@.skip(i as int)[0] == events@[i as int]);
            assert(events@.skip(i as int).skip(1) =~= events@.skip(i + 1));
        }
        if matches!(outcome, StepOutcome::Finished) {
            proof {
                assert(read_result_from(password@, events@.skip(i as int)) == password@);
            }
            return password;
        }
        i = i + 1;
    }
    proof {
        assert(events@.skip(n as int) =~= Seq::<ReadEvent>::empty());
    }
    password
}

/// The event of one decoded character.
pub open spec fn received(c: char) -> ReadEvent {
    ReadEvent::Received(c)
}

/// The events of a run of plainly typed characters.
pub open spec fn received_events(chars: Seq<char>) -> Seq<ReadEvent>
    decreases chars.len(),
{
    if chars.len() == 0 {
        Seq::<ReadEvent>::empty()
    } else {
        seq![received(chars[0])] + received_events(chars.skip(1))
    }
}

/// A character that neither finishes the line nor discards the input.
pub open spec fn is_plain_char(c: char) -> bool {
    c != '\n' && c != '\x08'
}

/// The digest chain folded forward from a given starting content.
pub open spec fn fold_from(content: Seq<u8>, chars: Seq<char>) -> Seq<u8>
    decreases chars.len(),
{
    if chars.len() == 0 {
        content
    } else {
        fold_from(push_digest(content, chars[0]), chars.skip(1))
    }
}

proof fn lemma_fold_from_push(content: Seq<u8>, chars: Seq<char>, c: char)
    ensures
        fold_from(content, chars.push(c)) == push_digest(fold_from(content, chars), c),
    decreases chars.len(),
{
    let s = chars.push(c);
    assert(s.len() == chars.len() + 1);
    if chars.len() == 0 {
        assert(s[0] == c);
        assert(s.skip(1) =~= Seq::<char>::empty());
        assert(fold_from(content, s) == fold_from(push_digest(content, c), s.skip(1)));
        assert(fold_from(push_digest(content, c), Seq::<char>::empty()) == push_digest(
            content,
            c,
        ));
    } else {
        assert(s[0] == chars[0]);
        assert(s.skip(1) =~= chars.skip(1).push(c));
        lemma_fold_from_push(push_digest(content, chars[0]), chars.skip(1), c);
        assert(fold_from(content, s) == fold_from(push_digest(content, chars[0]), s.skip(1)));
        assert(fold_from(content, chars) == fold_from(
            push_digest(content, chars[0]),
            chars.skip(1),
        ));
    }
}

proof fn lemma_fold_from_chain(chars: Seq<char>)
    ensures
        fold_from(Seq::<u8>::empty(), chars) == crate::passstr::chain_digest(chars),
    decreases chars.len(),
{
    if chars.len() == 0 {
    } else {
        lemma_fold_from_chain(chars.drop_last());
        lemma_fold_from_push(Seq::<u8>::empty(), chars.drop_last(), chars.last());
        assert(chars.drop_last().push(chars.last()) =~= chars);
    }
}

proof fn lemma_plain_read_from(content: Seq<u8>, chars: Seq<char>)
    requires
        forall|i: int| 0 <= i < chars.len() ==> is_plain_char(#[trigger] chars[i]),
    ensures
        read_result_from(content, received_events(chars) + seq![ReadEvent::Received('\n')])
            == fold_from(content, chars),
    decreases chars.len(),
{
    let all = received_events(chars) + seq![ReadEvent::Received('\n')];
    if chars.len() == 0 {
        assert(all =~= seq![ReadEvent::Received('\n')]);
        assert(is_terminator(all[0]));
    } else {
        assert(received_events(chars) == seq![received(chars[0])] + received_events(
            chars.skip(1),
        ));
        assert(all[0] == received(chars[0]));
        assert(is_plain_char(chars[0]));
        assert(step_content(content, all[0]) == push_digest(content, chars[0]));
        assert(all.skip(1) =~= received_events(chars.skip(1)) + seq![
            ReadEvent::Received('\n'),
        ]);
        lemma_plain_read_from(push_digest(content, chars[0]), chars.skip(1));
    }
}

/// A read of plainly typed characters ended by a newline yields exactly the
/// digest chain of those characters, not the literal string.
pub proof fn law_plain_read(chars: Seq<char>)
    requires
        forall|i: int| 0 <= i < chars.len() ==> is_plain_char(#[trigger] chars[i]),
    ensures
        read_result(received_events(chars) + seq![ReadEvent::Received('\n')])
            == crate::passstr::chain_digest(chars),
{
    lemma_plain_read_from(Seq::<u8>::empty(), chars);
    lemma_fold_from_chain(chars);
}

/// Aborting discards all prior input: a run of non-terminating events
/// followed by an abort (or a failed decode) leaves the read exactly where a
/// fresh read of the remaining events would stand, whatever content the
/// buffer held before.
pub proof fn law_abort_discards(content: Seq<u8>, pre: Seq<ReadEvent>, reset: ReadEvent, post: Seq<ReadEvent>)
    requires
        forall|i: int| 0 <= i < pre.len() ==> !is_terminator(#[trigger] pre[i]),
        is_reset(reset),
    ensures
        read_result_from(content, pre + seq![reset] + post) == read_result(post),
    decreases pre.len(),
{
    let all = pre + seq![reset] + post;
    if pre.len() == 0 {
        assert(all[0] == reset);
        assert(all.skip(1) =~= post);
        assert(step_content(content, reset) == Seq::<u8>::empty());
    } else {
        assert(all[0] == pre[0]);
        assert(!is_terminator(pre[0]));
        assert(all.skip(1) =~= pre.skip(1) + seq![reset] + post);
        law_abort_discards(step_content(content, pre[0]), pre.skip(1), reset, post);
    }
}


/// The terminal mode flags used while a password is read: character echo
/// off, newline echo on, everything else as captured.
pub struct TerminalMode {
    /// The local-mode flags captured before the read started.
    pub original: u32,
    /// The flags to apply while the password is typed.
    pub modified: u32,
}

/// Derive the password-entry terminal mode from the captured local-mode
/// flags: clear the echo bit, set the newline-echo bit, keep the rest, and
/// remember the captured flags so they can be restored afterwards.
pub fn enter_password_mode(current: u32, echo_mask: u32, echonl_mask: u32) -> (m: TerminalMode)
    ensures
        m.original == current,
        m.modified == (current & !echo_mask) | echonl_mask,
{
    TerminalMode { original: current, modified: (current & !echo_mask) | echonl_mask }
}

} // verus!
