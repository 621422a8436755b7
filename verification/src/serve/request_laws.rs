//! What client and daemon can rely on.

use crate::serve::request::{RequestError, Utterance};
use crate::serve::request;
use crate::text;
use crate::text_lemmas;
use vstd::prelude::*;

verus! {

/// `s` holds neither a tab nor a line feed.
pub open spec fn is_field(s: Seq<char>) -> bool {
    forall|i: int| 0 <= i < s.len() ==> #[trigger] s[i] != '\t' && s[i] != '\n'
}

proof fn lemma_first_field(a: Seq<char>, b: Seq<char>)
    requires
        is_field(a),
    ensures
        request::fields_of(a) == seq![a],
        request::fields_of(a + seq!['\t'] + b) == seq![a] + request::fields_of(b),
{
    text::lemma_index_of(a, '\t', 0);
    let s = a + seq!['\t'] + b;
    text::lemma_index_of(s, '\t', 0);
    let n = a.len() as int;
    assert(s[n] == '\t');
    let k = text::index_of(s, '\t', 0)->0;
    if k < n {
        assert(s[k] == a[k]);
    }
    assert(s.take(n) =~= a);
    assert(s.skip(n + 1) =~= b);
}

/// Per-request configuration and text arrive as they were sent: what the daemon reads of a
/// request is what the client put in, with the whitespace around the text gone.
pub proof fn law_requests_arrive_as_sent(
    voice: Seq<char>,
    lang: Seq<char>,
    speed: Seq<char>,
    text: Seq<char>,
)
    requires
        voice.len() > 0,
        lang.len() > 0,
        is_field(voice),
        is_field(lang),
        is_field(speed),
        speed.len() > 0 ==> speed.last() != '\r',
        !text_lemmas::is_blank(text),
    ensures
        request::received(request::wire_of(voice, lang, speed, text)) == Some(
            Utterance { voice, lang, speed: Some(speed), text: text::trimmed(text) },
        ),
{
    let wire = request::wire_of(voice, lang, speed, text);
    let line = request::header_line(voice, lang, speed);
    let bare = voice + seq!['\t'] + (lang + seq!['\t'] + speed);
    let n = line.len() as int;
    text::lemma_index_of(wire, '\n', 0);
    assert(wire[n - 1] == '\n');
    let k = text::index_of(wire, '\n', 0)->0;
    assert(k == n - 1) by {
        if k < n - 1 {
            let v = voice.len() as int;
            let l = lang.len() as int;
            if k < v {
                assert(wire[k] == voice[k]);
            } else if v < k < v + 1 + l {
                assert(wire[k] == lang[k - v - 1]);
            } else if k > v + 1 + l {
                assert(wire[k] == speed[k - v - l - 2]);
            }
        }
    }
    assert(request::header_len(wire) == n);
    assert(wire.take(n) =~= line);
    assert(wire.skip(n) =~= text);
    assert(line.drop_last() =~= bare);
    assert(request::without_breaks(line) == request::without_breaks(bare));
    assert(bare.last() == if speed.len() > 0 {
        speed.last()
    } else {
        '\t'
    });
    if speed.len() > 0 {
        assert(speed[speed.len() - 1] != '\n');
    }
    assert(request::without_breaks(bare) == bare);
    lemma_first_field(voice, lang + seq!['\t'] + speed);
    lemma_first_field(lang, speed);
    lemma_first_field(speed, Seq::empty());
    let fields = request::fields_of(bare);
    assert(fields =~= seq![voice, lang, speed]);
    text_lemmas::lemma_trimmed(text);
}

/// A request without text is refused, whatever its header; the client is told, and reports
/// what it was told.
pub proof fn law_blank_requests_are_refused(header: Seq<char>, body: Seq<char>)
    requires
        text_lemmas::is_blank(body),
    ensures
        request::requested(header, body) is None,
        request::refusal(request::answer(request::requested(header, body))) == Some(
            "daemon rejected request:"@ + " "@ + RequestError::EmptyText.text(),
        ),
{
    text_lemmas::lemma_trimmed(body);
    reveal_strlit("err: ");
    reveal_strlit("err:");
    reveal_strlit("empty text");
    reveal_strlit("\n");
    reveal_strlit(" ");
    let line = "err: "@ + "empty text"@;
    let answer = request::answer(None);
    assert(answer =~= line.push('\n'));
    assert(text::trimmed_start(answer) == answer);
    assert(answer.drop_last() =~= line);
    assert(line.last() == 't');
    assert(text::trimmed_end(line) == line);
    assert(text::trimmed(answer) == line);
    assert(line.subrange(0, 4) =~= "err:"@);
    assert(line.skip(4) =~= " "@ + "empty text"@);
    assert("daemon rejected request:"@ + line.skip(4) =~= "daemon rejected request:"@ + " "@
        + "empty text"@);
}

/// A request that is accepted is reported as such.
pub proof fn law_accepted_requests_are_acknowledged(asked: Utterance)
    ensures
        request::answer(Some(asked)) == "ok\n"@,
        request::refusal(request::answer(Some(asked))) is None,
{
    reveal_strlit("ok\n");
    reveal_strlit("err:");
    let answer = "ok\n"@;
    assert(text::trimmed_start(answer) == answer);
    let line = answer.drop_last();
    assert(line.last() == 'k');
    assert(text::trimmed_end(line) == line);
    assert(text::trimmed(answer) == line);
    assert(line.len() == 2);
}

/// A request without a header is spoken with the usual voice and language.
pub proof fn law_missing_fields_fall_back(body: Seq<char>)
    requires
        !text_lemmas::is_blank(body),
    ensures
        request::requested(seq!['\n'], body) == Some(
            Utterance {
                voice: "af_heart"@,
                lang: "en-us"@,
                speed: None,
                text: text::trimmed(body),
            },
        ),
{
    text_lemmas::lemma_trimmed(body);
    assert(seq!['\n'].drop_last() =~= Seq::<char>::empty());
    assert(request::without_breaks(Seq::<char>::empty()) =~= Seq::<char>::empty());
    lemma_first_field(Seq::empty(), Seq::empty());
}

/// A row of fields with tabs between them has just these fields.
proof fn lemma_fields(fields: Seq<Seq<char>>)
    requires
        fields.len() > 0,
        forall|i: int| 0 <= i < fields.len() ==> is_field(#[trigger] fields[i]),
    ensures
        request::fields_of(text::joined(fields, seq!['\t'])) == fields,
    decreases fields.len(),
{
    assert(is_field(fields[0]));
    if fields.len() == 1 {
        lemma_first_field(fields[0], Seq::empty());
        assert(seq![fields[0]] =~= fields);
    } else {
        let rest = fields.drop_first();
        assert forall|i: int| 0 <= i < rest.len() implies is_field(#[trigger] rest[i]) by {
            assert(rest[i] == fields[i + 1]);
        }
        lemma_fields(rest);
        text_lemmas::lemma_joined_front(fields, seq!['\t']);
        lemma_first_field(fields[0], text::joined(rest, seq!['\t']));
        assert(seq![fields[0]] + rest =~= fields);
    }
}

proof fn lemma_without_breaks(s: Seq<char>, breaks: Seq<char>)
    requires
        s.len() > 0 ==> s.last() != '\n' && s.last() != '\r',
        forall|i: int| 0 <= i < breaks.len() ==> #[trigger] breaks[i] == '\n' || breaks[i] == '\r',
    ensures
        request::without_breaks(s + breaks) == s,
    decreases breaks.len(),
{
    if breaks.len() == 0 {
        assert(s + breaks =~= s);
    } else {
        let front = breaks.drop_last();
        assert(breaks[breaks.len() - 1] == '\n' || breaks[breaks.len() - 1] == '\r');
        assert forall|i: int| 0 <= i < front.len() implies #[trigger] front[i] == '\n' || front[i]
            == '\r' by {
            assert(front[i] == breaks[i]);
        }
        lemma_without_breaks(s, front);
        assert((s + breaks).drop_last() =~= s + front);
    }
}

proof fn lemma_last_of_fields(fields: Seq<Seq<char>>)
    requires
        fields.len() > 0,
        forall|i: int| 0 <= i < fields.len() ==> is_field(#[trigger] fields[i]),
        fields.last().len() > 0 ==> fields.last().last() != '\r',
    ensures
        ({
            let s = text::joined(fields, seq!['\t']);
            s.len() > 0 ==> s.last() != '\n' && s.last() != '\r'
        }),
{
    let last = fields[fields.len() - 1];
    assert(is_field(last));
    if last.len() > 0 {
        assert(last[last.len() - 1] != '\n');
    }
}

/// A header line is read field by field: the first names the voice, the second the language and
/// the third the speed. A voice or a language that is missing or empty is the usual one, a speed
/// that is missing is none, fields beyond the third are ignored, and so are the line breaks at
/// the end. The text is the body without the whitespace around it.
pub proof fn law_header_fields_are_read(
    fields: Seq<Seq<char>>,
    breaks: Seq<char>,
    a: Seq<char>,
    t: Seq<char>,
    b: Seq<char>,
)
    requires
        fields.len() > 0,
        forall|i: int| 0 <= i < fields.len() ==> is_field(#[trigger] fields[i]),
        fields.last().len() > 0 ==> fields.last().last() != '\r',
        forall|i: int| 0 <= i < breaks.len() ==> #[trigger] breaks[i] == '\n' || breaks[i] == '\r',
        text_lemmas::is_blank(a),
        text_lemmas::is_tight(t),
        text_lemmas::is_blank(b),
    ensures
        ({
            let asked = request::requested(
                text::joined(fields, seq!['\t']) + breaks,
                a + t + b,
            );
            &&& asked is Some
            &&& asked->0.voice == if fields[0].len() > 0 {
                fields[0]
            } else {
                "af_heart"@
            }
            &&& asked->0.lang == if fields.len() > 1 && fields[1].len() > 0 {
                fields[1]
            } else {
                "en-us"@
            }
            &&& asked->0.speed == if fields.len() > 2 {
                Some(fields[2])
            } else {
                None
            }
            &&& asked->0.text == t
        }),
{
    lemma_fields(fields);
    lemma_last_of_fields(fields);
    lemma_without_breaks(text::joined(fields, seq!['\t']), breaks);
    text_lemmas::law_trimming_takes_only_whitespace(a, t, b);
}

/// A connection's first line is the header and all that follows it the body, further line feeds
/// included; without a line feed there is no body, and hence nothing to speak.
pub proof fn law_the_first_line_is_the_header(head: Seq<char>, body: Seq<char>)
    requires
        forall|i: int| 0 <= i < head.len() ==> #[trigger] head[i] != '\n',
    ensures
        request::received(head.push('\n') + body) == request::requested(head.push('\n'), body),
        request::received(head) is None,
{
    let wire = head.push('\n') + body;
    let n = head.len() as int;
    text::lemma_index_of(wire, '\n', 0);
    text::lemma_index_of(head, '\n', 0);
    assert(wire[n] == '\n');
    let k = text::index_of(wire, '\n', 0)->0;
    assert(k == n) by {
        if k < n {
            assert(wire[k] == head[k]);
        }
    }
    assert(wire.take(n + 1) =~= head.push('\n'));
    assert(wire.skip(n + 1) =~= body);
    assert(head.skip(n) =~= Seq::<char>::empty());
    text_lemmas::lemma_trimmed(head.skip(n));
}

/// A client reports why it was refused in the daemon's words, and any other answer is none of
/// its business.
pub proof fn law_refusals_are_quoted(a: Seq<char>, why: Seq<char>, b: Seq<char>, answer: Seq<char>)
    requires
        text_lemmas::is_blank(a),
        why.len() > 0 ==> !text::is_space(why.last()),
        text_lemmas::is_blank(b),
        text_lemmas::is_tight(answer),
        answer.len() < 4 || answer[0] != 'e' || answer[1] != 'r' || answer[2] != 'r' || answer[3]
            != ':',
    ensures
        request::refusal(a + ("err:"@ + why) + b) == Some("daemon rejected request:"@ + why),
        request::refusal(a + answer + b) is None,
        request::refusal(a + b) is None,
{
    reveal_strlit("err:");
    let line = "err:"@ + why;
    text_lemmas::law_trimming_takes_only_whitespace(a, line, b);
    text_lemmas::law_trimming_takes_only_whitespace(a, answer, b);
    assert(line.subrange(0, 4) =~= "err:"@);
    assert(line.skip(4) =~= why);
    if answer.len() >= 4 {
        let head = answer.subrange(0, 4);
        assert(head[0] == answer[0] && head[1] == answer[1]);
        assert(head[2] == answer[2] && head[3] == answer[3]);
        assert("err:"@[0] == 'e' && "err:"@[1] == 'r' && "err:"@[2] == 'r' && "err:"@[3] == ':');
    }
}

} // verus!
