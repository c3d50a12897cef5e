//! One end-to-end translation.  A session is created by `dispatch`, which
//! validates the credential and builds the provider request body.  The
//! caller then drives it with the transport's events: the response status,
//! each received byte chunk, and either the end of the stream or a
//! transport failure.  The session owns the stream buffer and the
//! accumulated text; its ghost delta history ties every emitted fragment to
//! the final result.
//!
//! Exactly one terminal transition happens per session: `on_end` (success)
//! and the error transitions are mutually exclusive by the phase
//! preconditions, so a listener can never receive both a completion and an
//! error, and never a completion after a failed stream.

use vstd::prelude::*;
use vstd::string::StringExecFns;
use crate::models::{Settings, TranslationRequest, TranslationResponse};
use crate::sse::{events_of, residue, lemma_drain_concat, FrameDecoder};
use crate::event::event_deltas;
use crate::json::esc_seq;
use crate::json::append_escaped;
use crate::text::{lossy_text, lossy_decode, chars_of_str};

verus! {

/// The deltas contributed by a sequence of event blocks, each decoded
/// leniently from its bytes, in order.
pub open spec fn events_deltas(evs: Seq<Seq<u8>>) -> Seq<Seq<char>>
    decreases evs.len(),
{
    if evs.len() == 0 {
        Seq::empty()
    } else {
        event_deltas(lossy_text(evs[0])) + events_deltas(evs.drop_first())
    }
}

/// Every delta of the complete events in a byte stream, in delivery order.
pub open spec fn stream_deltas(b: Seq<u8>) -> Seq<Seq<char>> {
    events_deltas(events_of(b))
}

/// The concatenation of a sequence of fragments.
pub open spec fn concat_frags(ds: Seq<Seq<char>>) -> Seq<char>
    decreases ds.len(),
{
    if ds.len() == 0 {
        Seq::empty()
    } else {
        ds[0] + concat_frags(ds.drop_first())
    }
}

/// Event deltas distribute over concatenation of event sequences.
pub proof fn lemma_events_deltas_concat(e1: Seq<Seq<u8>>, e2: Seq<Seq<u8>>)
    ensures
        events_deltas(e1 + e2) == events_deltas(e1) + events_deltas(e2),
    decreases e1.len(),
{
    if e1.len() == 0 {
        assert(e1 + e2 =~~= e2);
        assert(events_deltas(e1) + events_deltas(e2) =~~= events_deltas(e2));
    } else {
        assert((e1 + e2).drop_first() =~~= e1.drop_first() + e2);
        assert((e1 + e2)[0] == e1[0]);
        lemma_events_deltas_concat(e1.drop_first(), e2);
        assert(event_deltas(lossy_text(e1[0])) + (events_deltas(e1.drop_first()) + events_deltas(
            e2,
        )) =~~= (event_deltas(lossy_text(e1[0])) + events_deltas(e1.drop_first())) + events_deltas(
            e2,
        ));
    }
}

/// Appending one event appends its deltas.
pub proof fn lemma_events_deltas_snoc(evs: Seq<Seq<u8>>, e: Seq<u8>)
    ensures
        events_deltas(evs.push(e)) == events_deltas(evs) + event_deltas(lossy_text(e)),
{
    assert(evs.push(e) =~~= evs + seq![e]);
    lemma_events_deltas_concat(evs, seq![e]);
    assert(seq![e].drop_first() =~~= Seq::<Seq<u8>>::empty());
    assert(seq![e][0] == e);
    assert(events_deltas(Seq::<Seq<u8>>::empty()) =~~= Seq::<Seq<char>>::empty());
    assert(event_deltas(lossy_text(e)) + Seq::<Seq<char>>::empty() =~~= event_deltas(
        lossy_text(e),
    ));
    assert(events_deltas(seq![e]) =~~= event_deltas(lossy_text(e)));
}

/// Appending one fragment appends its characters.
pub proof fn lemma_concat_frags_snoc(ds: Seq<Seq<char>>, d: Seq<char>)
    ensures
        concat_frags(ds.push(d)) == concat_frags(ds) + d,
    decreases ds.len(),
{
    if ds.len() == 0 {
        assert(ds.push(d)[0] == d);
        assert(ds.push(d).drop_first() =~~= Seq::<Seq<char>>::empty());
        assert(concat_frags(Seq::<Seq<char>>::empty()) == Seq::<char>::empty());
        assert(d + Seq::<char>::empty() =~= d);
        assert(concat_frags(ds.push(d)) =~~= d);
        assert(concat_frags(ds) + d =~~= d);
    } else {
        assert(ds.push(d)[0] == ds[0]);
        assert(ds.push(d).drop_first() =~~= ds.drop_first().push(d));
        lemma_concat_frags_snoc(ds.drop_first(), d);
        assert(ds[0] + (concat_frags(ds.drop_first()) + d) =~~= (ds[0] + concat_frags(
            ds.drop_first(),
        )) + d);
    }
}

/// Chunk-boundary invariance, lifted to deltas: the deltas of a stream cut
/// at an arbitrary byte offset are the deltas of the first part followed by
/// the deltas the continuation yields from the leftover buffer — so any
/// split of the same bytes produces the same delta sequence as one
/// delivery.
pub proof fn lemma_chunk_boundary_invariance(b1: Seq<u8>, b2: Seq<u8>)
    ensures
        stream_deltas(b1 + b2) == stream_deltas(b1) + events_deltas(
            events_of(residue(b1) + b2),
        ),
{
    lemma_drain_concat(b1, b2);
    lemma_events_deltas_concat(events_of(b1), events_of(residue(b1) + b2));
}

/// The instruction sent as the user-role message.
pub open spec fn user_prompt_spec(req: crate::models::TranslationRequestView) -> Seq<char> {
    "Translate the following text from "@ + req.source_language + " to "@ + req.target_language
        + ":\n\n"@ + req.text
}

/// The JSON body of the chat-completion request: the configured model, the
/// system prompt, the formatted instruction, and the streaming flag.
pub open spec fn request_body_spec(
    st: crate::models::SettingsView,
    req: crate::models::TranslationRequestView,
) -> Seq<char> {
    "{\"model\":\""@ + esc_seq(st.model) + "\",\"messages\":[{\"role\":\"system\",\"content\":\""@
        + esc_seq(st.system_prompt) + "\"},{\"role\":\"user\",\"content\":\""@ + esc_seq(
        user_prompt_spec(req),
    ) + "\"}],\"stream\":true}"@
}

/// Builds the user-role instruction.
pub fn build_user_prompt(req: &TranslationRequest) -> (s: String)
    ensures
        s@ == user_prompt_spec(req@),
{
    let mut s = String::from_str("Translate the following text from ");
    s.append(req.source_language.as_str());
    s.append(" to ");
    s.append(req.target_language.as_str());
    s.append(":\n\n");
    s.append(req.text.as_str());
    s
}

/// Renders the request body.
pub fn request_body(settings: &Settings, req: &TranslationRequest) -> (s: String)
    ensures
        s@ == request_body_spec(settings@, req@),
{
    let prompt = build_user_prompt(req);
    let mut s = String::from_str("{\"model\":\"");
    append_escaped(&mut s, settings.model.as_str());
    s.append("\",\"messages\":[{\"role\":\"system\",\"content\":\"");
    append_escaped(&mut s, settings.system_prompt.as_str());
    s.append("\"},{\"role\":\"user\",\"content\":\"");
    append_escaped(&mut s, prompt.as_str());
    s.append("\"}],\"stream\":true}");
    s
}

/// The error reported when a session is dispatched without a credential.
pub open spec fn missing_key_message() -> Seq<char> {
    "API key not configured. Please set your API key in Settings."@
}

/// Where a session stands: awaiting the response status, reading the body,
/// or in one of the two terminal states.
#[derive(Clone, Copy, PartialEq, Eq, Structural)]
pub enum Phase {
    Requesting,
    Streaming,
    Completed,
    Errored,
}

/// One translation in flight.
pub struct Session {
    state: Phase,
    decoder: FrameDecoder,
    full_text: String,
    source_language: String,
    target_language: String,
    api_key: String,
    body: String,
    fed: Ghost<Seq<u8>>,
    deltas: Ghost<Seq<Seq<char>>>,
}

impl Session {
    /// The session's current phase.
    pub closed spec fn phase(self) -> Phase {
        self.state
    }

    /// Every body byte fed to the session so far.
    pub closed spec fn fed(self) -> Seq<u8> {
        self.fed@
    }

    /// Every delta handed to the caller so far, in delivery order.
    pub closed spec fn deltas(self) -> Seq<Seq<char>> {
        self.deltas@
    }

    /// The accumulated translated text.
    pub closed spec fn accumulated(self) -> Seq<char> {
        self.full_text@
    }

    /// The source language of the originating request.
    pub closed spec fn source_language_spec(self) -> Seq<char> {
        self.source_language@
    }

    /// The target language of the originating request.
    pub closed spec fn target_language_spec(self) -> Seq<char> {
        self.target_language@
    }

    /// The credential carried for the `Authorization` header.
    pub closed spec fn api_key_spec(self) -> Seq<char> {
        self.api_key@
    }

    /// The rendered request body.
    pub closed spec fn body_spec(self) -> Seq<char> {
        self.body@
    }

    /// The fields that never change after dispatch.
    pub open spec fn fixed(self) -> (Seq<char>, Seq<char>, Seq<char>, Seq<char>) {
        (self.source_language_spec(), self.target_language_spec(), self.api_key_spec(), self.body_spec())
    }

    /// Well-formedness: the buffer holds exactly the residue of the bytes
    /// fed, the delta history is exactly what those bytes yield, and the
    /// accumulated text is exactly the concatenation of the history.
    pub closed spec fn wf(self) -> bool {
        &&& self.decoder.buffered() == residue(self.fed())
        &&& self.deltas() == stream_deltas(self.fed())
        &&& self.accumulated() == concat_frags(self.deltas())
    }

    /// The rendered request body, for the transport to send.
    pub fn request_body_text(&self) -> (r: &String)
        ensures
            r@ == self.body_spec(),
    {
        &self.body
    }

    /// The credential, for the transport's `Authorization` header.
    pub fn credential(&self) -> (r: &String)
        ensures
            r@ == self.api_key_spec(),
    {
        &self.api_key
    }

    /// A successful response status was received: start streaming.  A
    /// failing status ends the session with the response body text as the
    /// error, exactly as received.
    pub fn on_status(&mut self, status: u16, error_body: &str) -> (r: Result<(), String>)
        requires
            old(self).wf(),
            old(self).phase() is Requesting,
        ensures
            final(self).wf(),
            (200 <= status < 300) ==> r is Ok && final(self).phase() is Streaming,
            !(200 <= status < 300) ==> (r matches Err(e) && e@ == error_body@
                && final(self).phase() is Errored),
            final(self).deltas() == old(self).deltas(),
            final(self).fed() == old(self).fed(),
            final(self).fixed() == old(self).fixed(),
    {
        if 200 <= status && status < 300 {
            self.state = Phase::Streaming;
            Ok(())
        } else {
            self.state = Phase::Errored;
            Err(String::from_str(error_body))
        }
    }

    /// One chunk of the response body arrived: buffer it, extract every
    /// event that is now complete, and hand back the new deltas in order.
    /// The delta history afterwards is exactly the deltas of all bytes fed,
    /// wherever the transport happened to cut them.
    pub fn on_chunk(&mut self, chunk: &[u8]) -> (ds: Vec<String>)
        requires
            old(self).wf(),
            old(self).phase() is Streaming,
        ensures
            final(self).wf(),
            final(self).phase() is Streaming,
            final(self).fed() == old(self).fed() + chunk@,
            final(self).deltas() == old(self).deltas() + ds.deep_view(),
            final(self).deltas() == stream_deltas(final(self).fed()),
            final(self).fixed() == old(self).fixed(),
    {
        let ghost fed0: Seq<u8> = self.fed@;
        let ghost base: Seq<Seq<char>> = self.deltas@;
        let events = self.decoder.feed(chunk);
        self.fed = Ghost(fed0 + chunk@);
        proof {
            lemma_drain_concat(fed0, chunk@);
            assert(events.deep_view() == events_of(residue(fed0) + chunk@));
            assert(self.decoder.buffered() == residue(self.fed@));
            lemma_events_deltas_concat(events_of(fed0), events.deep_view());
            assert(stream_deltas(self.fed@) == base + events_deltas(events.deep_view()));
        }
        let ghost mid: Session = *self;
        let mut out: Vec<String> = Vec::new();
        proof {
            assert(out.deep_view() =~~= events_deltas(events.deep_view().take(0)));
            assert(events_deltas(events.deep_view().take(0)) =~~= Seq::<Seq<char>>::empty());
        }
        let n = events.len();
        let mut i: usize = 0;
        while i < n
            invariant
                i <= n,
                n == events@.len(),
                self.state == mid.state,
                self.decoder == mid.decoder,
                self.fed == mid.fed,
                self.deltas == mid.deltas,
                self.source_language == mid.source_language,
                self.target_language == mid.target_language,
                self.api_key == mid.api_key,
                self.body == mid.body,
                out.deep_view() == events_deltas(events.deep_view().take(i as int)),
                self.full_text@ == concat_frags(base + out.deep_view()),
            decreases n - i,
        {
            let ghost outer0: Seq<Seq<char>> = out.deep_view();
            let text = lossy_decode(&events[i]);
            let cs = chars_of_str(text.as_str());
            let evds = crate::event::extract_deltas(&cs);
            proof {
                assert(events.deep_view()[i as int] == events@[i as int].deep_view());
                assert(events@[i as int].deep_view() =~= events@[i as int]@);
                assert(cs@ == lossy_text(events.deep_view()[i as int]));
                assert(evds.deep_view() == event_deltas(lossy_text(events.deep_view()[i as int])));
            }
            let m = evds.len();
            let mut j: usize = 0;
            while j < m
                invariant
                    j <= m,
                    m == evds@.len(),
                    self.state == mid.state,
                    self.decoder == mid.decoder,
                    self.fed == mid.fed,
                    self.deltas == mid.deltas,
                    self.source_language == mid.source_language,
                    self.target_language == mid.target_language,
                    self.api_key == mid.api_key,
                    self.body == mid.body,
                    out.deep_view() == outer0 + evds.deep_view().take(j as int),
                    self.full_text@ == concat_frags(base + out.deep_view()),
                decreases m - j,
            {
                let d = evds[j].clone();
                proof {
                    assert(d@ == evds.deep_view()[j as int]);
                }
                self.full_text.append(d.as_str());
                out.push(d);
                proof {
                    lemma_concat_frags_snoc(base + (outer0 + evds.deep_view().take(j as int)),
                        evds.deep_view()[j as int]);
                    assert(out.deep_view() =~~= (outer0 + evds.deep_view().take(j as int)).push(
                        evds.deep_view()[j as int],
                    ));
                    assert(evds.deep_view().take(j as int + 1) =~~= evds.deep_view().take(
                        j as int,
                    ).push(evds.deep_view()[j as int]));
                    assert(out.deep_view() =~~= outer0 + evds.deep_view().take(j as int + 1));
                    assert((base + (outer0 + evds.deep_view().take(j as int))).push(
                        evds.deep_view()[j as int],
                    ) =~~= base + out.deep_view());
                }
                j = j + 1;
            }
            proof {
                assert(evds.deep_view().take(m as int) =~~= evds.deep_view());
                lemma_events_deltas_snoc(
                    events.deep_view().take(i as int),
                    events.deep_view()[i as int],
                );
                assert(events.deep_view().take(i as int + 1) =~~= events.deep_view().take(
                    i as int,
                ).push(events.deep_view()[i as int]));
                assert(out.deep_view() =~~= events_deltas(events.deep_view().take(i as int + 1)));
            }
            i = i + 1;
        }
        proof {
            assert(events.deep_view().take(n as int) =~~= events.deep_view());
        }
        self.deltas = Ghost(base + out.deep_view());
        proof {
            assert(self.deltas@ == stream_deltas(self.fed@));
        }
        out
    }

    /// The response body ended without a transport error: the session
    /// completes, exactly once, with the accumulated text and the language
    /// pair of the originating request.  Concatenating every delta handed
    /// out, in delivery order, gives `translated_text` exactly.
    pub fn on_end(&mut self) -> (resp: TranslationResponse)
        requires
            old(self).wf(),
            old(self).phase() is Streaming,
        ensures
            final(self).wf(),
            final(self).phase() is Completed,
            final(self).deltas() == old(self).deltas(),
            final(self).fed() == old(self).fed(),
            final(self).fixed() == old(self).fixed(),
            resp@.translated_text == concat_frags(old(self).deltas()),
            resp@.source_language == old(self).source_language_spec(),
            resp@.target_language == old(self).target_language_spec(),
    {
        self.state = Phase::Completed;
        TranslationResponse {
            translated_text: self.full_text.clone(),
            source_language: self.source_language.clone(),
            target_language: self.target_language.clone(),
        }
    }

    /// The transport failed while connecting or mid-stream: the session
    /// errs, exactly once, with the transport's message.  The deltas
    /// already delivered stay delivered, and no completion can follow: the
    /// phase is terminal.
    pub fn on_transport_error(&mut self, message: &str) -> (r: String)
        requires
            old(self).wf(),
            old(self).phase() is Requesting || old(self).phase() is Streaming,
        ensures
            final(self).wf(),
            final(self).phase() is Errored,
            final(self).deltas() == old(self).deltas(),
            final(self).fed() == old(self).fed(),
            final(self).fixed() == old(self).fixed(),
            r@ == message@,
    {
        self.state = Phase::Errored;
        String::from_str(message)
    }
}

/// For every well-formed session, the text accumulated for the completion
/// notification is exactly the concatenation, in delivery order, of every
/// delta handed to the listener.
pub proof fn lemma_accumulated_is_delta_concat(s: Session)
    requires
        s.wf(),
    ensures
        s.accumulated() == concat_frags(s.deltas()),
{
}

/// Validates the credential and prepares a session.  With an empty
/// `api_key` it returns the configuration error at once and no session
/// exists, so no delta and no completion can ever be produced for the
/// call; otherwise the returned session is ready in `Requesting` phase
/// with the rendered request body.
pub fn dispatch(request: &TranslationRequest, settings: &Settings) -> (r: Result<Session, String>)
    ensures
        (settings@.api_key.len() == 0) <==> r is Err,
        r matches Err(e) ==> e@ == missing_key_message(),
        r matches Ok(s) ==> {
            &&& s.wf()
            &&& s.phase() is Requesting
            &&& s.fed() == Seq::<u8>::empty()
            &&& s.deltas() == Seq::<Seq<char>>::empty()
            &&& s.accumulated() == Seq::<char>::empty()
            &&& s.source_language_spec() == request@.source_language
            &&& s.target_language_spec() == request@.target_language
            &&& s.api_key_spec() == settings@.api_key
            &&& s.body_spec() == request_body_spec(settings@, request@)
        },
{
    if settings.api_key.as_str().is_empty() {
        return Err(String::from_str("API key not configured. Please set your API key in Settings."));
    }
    let body = request_body(settings, request);
    let s = Session {
        state: Phase::Requesting,
        decoder: FrameDecoder::new(),
        full_text: String::new(),
        source_language: request.source_language.clone(),
        target_language: request.target_language.clone(),
        api_key: settings.api_key.clone(),
        body,
        fed: Ghost(Seq::empty()),
        deltas: Ghost(Seq::empty()),
    };
    proof {
        assert(residue(Seq::<u8>::empty()) == Seq::<u8>::empty());
        assert(events_of(Seq::<u8>::empty()) =~~= Seq::<Seq<u8>>::empty());
        assert(stream_deltas(Seq::<u8>::empty()) =~~= Seq::<Seq<char>>::empty());
        assert(concat_frags(Seq::<Seq<char>>::empty()) =~~= Seq::<char>::empty());
        assert(s.wf());
    }
    Ok(s)
}

} // verus!
