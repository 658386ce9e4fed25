//! The per-connection session engine.
//!
//! One session owns the connection's history, admission state and audio
//! assembler. Each inbound unit of work — a control or request text, a
//! binary chunk, a completed recording, a finished backend call — is routed
//! through one of the handlers below, which updates the session and says in
//! its outcome what the transport should do: answer at once, start a backend
//! call, or report a rejection. Every routed unit gets exactly one outcome.

use vstd::prelude::*;

use crate::admission::{Admission, AdmitDecision};
use crate::audio::{spec_find_sentinel, AudioAssembler};
use crate::context::{spec_append, ContextWindow};
use crate::morse::{decode_greedy, decode_morse, decode_segmented, decodable, has_space,
    is_decoding};

verus! {

/// What a complete Morse decode may return for a given input: the segmented
/// result when the input carries separators, a minimal complete segmentation
/// when one exists, and the greedy covering otherwise.
pub open spec fn morse_decode_ok(input: Seq<char>, out: Seq<char>) -> bool {
    &&& (has_space(input) ==> out == decode_segmented(input))
    &&& (!has_space(input) && decodable(input) ==> is_decoding(input, out) && (forall|
        d: Seq<char>,
    |
        is_decoding(input, d) ==> out.len() <= d.len()))
    &&& (!has_space(input) && !decodable(input) ==> out == decode_greedy(input))
}

/// A decode too empty to forward: nothing, or a single placeholder.
pub open spec fn morse_decode_empty(out: Seq<char>) -> bool {
    out.len() == 0 || out == seq!['?']
}

/// Whether a text is a Morse request, and its payload.
pub open spec fn is_morse_message(t: Seq<char>) -> bool {
    t.len() >= "morse:"@.len() && t.take("morse:"@.len() as int) == "morse:"@
}

pub open spec fn morse_payload(t: Seq<char>) -> Seq<char> {
    t.skip("morse:"@.len() as int)
}

/// Whether a text is a plain text request, and its payload.
pub open spec fn is_text_message(t: Seq<char>) -> bool {
    t.len() >= "text:"@.len() && t.take("text:"@.len() as int) == "text:"@
}

pub open spec fn text_payload(t: Seq<char>) -> Seq<char> {
    t.skip("text:"@.len() as int)
}

/// The outcome of routing one inbound text.
pub enum TextOutcome {
    /// Keep-alive: answer at once, touch nothing.
    Pong,
    /// The history was emptied; answer with a confirmation.
    ContextCleared,
    /// The Morse payload decoded to nothing usable; report it, leave the
    /// session untouched.
    MorseDecodeFailed { code: String },
    /// The admission gate turned the request away; the decision says why.
    Rejected { decision: AdmitDecision },
    /// The request was admitted: call the backend with `input` and hand the
    /// result to `finish_chat`. `from_morse` says the input came decoded
    /// from Morse, so the transport can frame the prompt accordingly.
    StartChat { input: String, from_morse: bool },
    /// Not a message this engine routes.
    Ignored,
}

/// The outcome of a completed recording.
pub enum AudioOutcome {
    /// The recording carried no bytes; report it, admission untouched.
    NoData,
    /// The admission gate turned the recording away.
    Rejected { decision: AdmitDecision },
    /// Admitted: encode `pcm`, transcribe it, chat, and hand the result to
    /// `finish_chat`.
    StartTranscribe { pcm: Vec<u8> },
}

/// What to answer once a backend call has finished.
pub enum ChatReply {
    /// The backend's answer, already appended to the history.
    Answer(String),
    /// The call failed; answer with an error text, history untouched.
    BackendFailed,
}

/// All state attached to one live connection.
pub struct Session {
    pub history: ContextWindow,
    pub admission: Admission,
    pub assembler: AudioAssembler,
}

impl Session {
    pub open spec fn wf(&self) -> bool {
        self.history.wf()
    }

    /// A fresh session for a connection opened at `now_ms`.
    pub fn new(now_ms: u64) -> (s: Session)
        ensures
            s.wf(),
            s.history@ == Seq::<(String, String)>::empty(),
            s.admission == (Admission { last_request_ms: now_ms, in_progress: false }),
            s.assembler@ == Seq::<u8>::empty(),
    {
        Session {
            history: ContextWindow::new(),
            admission: Admission::new(now_ms),
            assembler: AudioAssembler::new(),
        }
    }

    /// Route one inbound text: keep-alives and context clearing pass the
    /// admission gate by; Morse and plain text requests go through it, the
    /// Morse payload decoded first; anything else is ignored.
    pub fn handle_text(&mut self, text: &str, now_ms: u64) -> (o: TextOutcome)
        requires
            old(self).wf(),
        ensures
            final(self).wf(),
            final(self).assembler@ == old(self).assembler@,
            text@ == "ping"@ ==> o is Pong && *final(self) == *old(self),
            text@ == "clear_context"@ ==> o is ContextCleared && final(self).history@
                == Seq::<(String, String)>::empty() && final(self).admission == old(self).admission,
            is_morse_message(text@) ==> exists|dec: Seq<char>|
                {
                    &&& #[trigger] morse_decode_ok(morse_payload(text@), dec)
                    &&& if morse_decode_empty(dec) {
                        (o matches TextOutcome::MorseDecodeFailed { code } && code@
                            == morse_payload(text@)) && *final(self) == *old(self)
                    } else {
                        gate_outcome(*old(self), *final(self), o, now_ms, dec, true)
                    }
                },
            is_text_message(text@) ==> gate_outcome(
                *old(self),
                *final(self),
                o,
                now_ms,
                text_payload(text@),
                false,
            ),
            !(text@ == "ping"@) && !(text@ == "clear_context"@) && !is_morse_message(text@)
                && !is_text_message(text@) ==> o is Ignored && *final(self) == *old(self),
    {
        proof {
            reveal_strlit("ping");
            reveal_strlit("clear_context");
            reveal_strlit("morse:");
            reveal_strlit("text:");
        }
        let tv = crate::text::str_chars(text);
        if crate::text::chars_eq_str(tv.as_slice(), "ping") {
            proof {
                assert(!is_morse_message(text@));
                assert(!is_text_message(text@));
            }
            return TextOutcome::Pong;
        }
        if crate::text::chars_eq_str(tv.as_slice(), "clear_context") {
            proof {
                assert(!is_morse_message(text@)) by {
                    if is_morse_message(text@) {
                        assert(text@.take("morse:"@.len() as int)[0] == text@[0]);
                    }
                }
                assert(!is_text_message(text@)) by {
                    if is_text_message(text@) {
                        assert(text@.take("text:"@.len() as int)[0] == text@[0]);
                    }
                }
            }
            self.history.clear();
            return TextOutcome::ContextCleared;
        }
        if crate::text::chars_start_with(tv.as_slice(), "morse:") {
            proof {
                assert(!is_text_message(text@)) by {
                    if is_text_message(text@) {
                        assert(text@.take("text:"@.len() as int)[0] == text@[0]);
                        assert(text@.take("morse:"@.len() as int)[0] == text@[0]);
                    }
                }
            }
            let rest = &tv.as_slice()[6..tv.len()];
            proof {
                assert(rest@ =~= morse_payload(text@));
            }
            let code = crate::text::chars_string(rest);
            let decoded = decode_morse(code.as_str());
            let dv = crate::text::str_chars(decoded.as_str());
            proof {
                assert(morse_decode_ok(morse_payload(text@), decoded@));
            }
            if dv.len() == 0 || (dv.len() == 1 && dv[0] == '?') {
                proof {
                    assert(morse_decode_empty(decoded@)) by {
                        if decoded@.len() == 1 {
                            assert(decoded@ =~= seq!['?']);
                        }
                    }
                }
                return TextOutcome::MorseDecodeFailed { code };
            }
            proof {
                assert(!morse_decode_empty(decoded@)) by {
                    if decoded@ == seq!['?'] {
                        assert(dv@[0] == '?');
                    }
                }
            }
            let d = self.admission.try_admit(now_ms);
            return match d {
                AdmitDecision::Admit => TextOutcome::StartChat { input: decoded, from_morse: true },
                _ => TextOutcome::Rejected { decision: d },
            };
        }
        if crate::text::chars_start_with(tv.as_slice(), "text:") {
            let rest = &tv.as_slice()[5..tv.len()];
            proof {
                assert(rest@ =~= text_payload(text@));
            }
            let input = crate::text::chars_string(rest);
            let d = self.admission.try_admit(now_ms);
            return match d {
                AdmitDecision::Admit => TextOutcome::StartChat { input, from_morse: false },
                _ => TextOutcome::Rejected { decision: d },
            };
        }
        TextOutcome::Ignored
    }

    /// Feed one binary chunk to the assembler. True when the sentinel ended
    /// the recording; the caller then calls `end_recording`.
    pub fn handle_binary(&mut self, chunk: &[u8]) -> (complete: bool)
        ensures
            final(self).history@ == old(self).history@,
            final(self).history.wf() == old(self).history.wf(),
            final(self).admission == old(self).admission,
            match spec_find_sentinel(chunk@) {
                Some(pos) => complete && final(self).assembler@ == old(self).assembler@
                    + chunk@.take(pos),
                None => !complete && final(self).assembler@ == old(self).assembler@ + chunk@,
            },
    {
        self.assembler.feed(chunk)
    }

    /// A recording ended: take the assembled bytes, reset the buffer, and
    /// put the recording through the admission gate. An empty recording is
    /// reported as such without touching admission.
    pub fn end_recording(&mut self, now_ms: u64) -> (o: AudioOutcome)
        requires
            old(self).wf(),
        ensures
            final(self).wf(),
            final(self).assembler@ == Seq::<u8>::empty(),
            final(self).history@ == old(self).history@,
            old(self).assembler@.len() == 0 ==> o is NoData && final(self).admission == old(
                self,
            ).admission,
            old(self).assembler@.len() > 0 ==> match old(self).admission.spec_decision(now_ms) {
                AdmitDecision::Admit => (o matches AudioOutcome::StartTranscribe { pcm } && pcm@
                    == old(self).assembler@) && final(self).admission == (Admission {
                    last_request_ms: now_ms,
                    in_progress: true,
                }),
                d => (o matches AudioOutcome::Rejected { decision } && decision == d) && final(
                    self).admission == old(self).admission,
            },
    {
        let data = self.assembler.take_buffer();
        if data.len() == 0 {
            return AudioOutcome::NoData;
        }
        let d = self.admission.try_admit(now_ms);
        match d {
            AdmitDecision::Admit => AudioOutcome::StartTranscribe { pcm: data },
            _ => AudioOutcome::Rejected { decision: d },
        }
    }

    /// A backend call finished: release the single-flight gate whatever
    /// happened, and on success append the exchange to the history.
    pub fn finish_chat(&mut self, input: String, response: Option<String>) -> (reply: ChatReply)
        requires
            old(self).wf(),
        ensures
            final(self).wf(),
            final(self).assembler@ == old(self).assembler@,
            final(self).admission == (Admission { in_progress: false, ..old(self).admission }),
            match response {
                Some(resp) => reply == ChatReply::Answer(resp) && final(self).history@
                    == spec_append(old(self).history@, input, resp),
                None => reply is BackendFailed && final(self).history@ == old(self).history@,
            },
    {
        self.admission.release();
        match response {
            Some(resp) => {
                let answer = resp.clone();
                self.history.append(input, resp);
                ChatReply::Answer(answer)
            },
            None => ChatReply::BackendFailed,
        }
    }
}

/// How the admission gate settles an admitted or rejected request: an
/// admitted request starts a backend call carrying `payload` and stamps the
/// gate; a rejected one reports the decision and changes nothing.
pub open spec fn gate_outcome(
    pre: Session,
    post: Session,
    o: TextOutcome,
    now_ms: u64,
    payload: Seq<char>,
    morse: bool,
) -> bool {
    &&& post.history@ == pre.history@
    &&& match pre.admission.spec_decision(now_ms) {
        AdmitDecision::Admit => (o matches TextOutcome::StartChat { input, from_morse } && input@
            == payload && from_morse == morse) && post.admission == (Admission {
            last_request_ms: now_ms,
            in_progress: true,
        }),
        d => (o matches TextOutcome::Rejected { decision } && decision == d) && post.admission
            == pre.admission,
    }
}

} // verus!
