//! Where a request goes: its path, its upstream and its headers.

use crate::config::Config;
use crate::text;
use crate::text::{chars_of, contains_any, find, is_one_of, same, string_of};
use vstd::prelude::*;

verus! {

/// The bytes that a path component keeps as they are.
pub open spec fn unreserved(byte: u8) -> bool {
    ||| 0x61 <= byte <= 0x7a
    ||| 0x41 <= byte <= 0x5a
    ||| 0x30 <= byte <= 0x39
    ||| byte == 0x2d
    ||| byte == 0x5f
    ||| byte == 0x2e
    ||| byte == 0x7e
}

/// The upper-case hexadecimal digit for a number below sixteen.
pub open spec fn hex_digit(n: int) -> char {
    if n < 10 {
        (0x30 + n) as char
    } else {
        (0x37 + n) as char
    }
}

/// How a path component spells a byte.
pub open spec fn spelled(byte: u8) -> Seq<char> {
    if unreserved(byte) {
        seq![byte as char]
    } else {
        seq!['%', hex_digit(byte as int / 16), hex_digit(byte as int % 16)]
    }
}

/// How a path component spells a row of bytes.
pub open spec fn percent_encoded(bytes: Seq<u8>) -> Seq<char>
    decreases bytes.len(),
{
    if bytes.len() == 0 {
        Seq::empty()
    } else {
        percent_encoded(bytes.drop_last()) + spelled(bytes.last())
    }
}

/// The upper-case hexadecimal digit for a number below sixteen.
fn to_hex_digit(n: u8) -> (r: char)
    requires
        n < 16,
    ensures
        r == hex_digit(n as int),
{
    if n < 10 {
        (0x30 + n) as char
    } else {
        (0x37 + n) as char
    }
}

/// URL-encodes a path component safely (e.g. for Chinese or special characters in proxy group
/// names).
pub fn encode_uri_component(input: &str) -> (r: String)
    ensures
        r@ == percent_encoded(vstd::utf8::encode_utf8(input@)),
{
    let bytes = input.as_bytes();
    let mut out: Vec<char> = Vec::new();
    let mut i: usize = 0;
    proof {
        assert(bytes@.take(0) =~= Seq::<u8>::empty());
    }
    while i < bytes.len()
        invariant
            i <= bytes.len(),
            out@ == percent_encoded(bytes@.take(i as int)),
        decreases bytes.len() - i,
    {
        let b: u8 = bytes[i];
        let ghost before = out@;
        if (0x61 <= b && b <= 0x7a) || (0x41 <= b && b <= 0x5a) || (0x30 <= b && b <= 0x39) || b
            == 0x2d || b == 0x5f || b == 0x2e || b == 0x7e {
            out.push(b as char);
        } else {
            out.push('%');
            out.push(to_hex_digit(b / 16));
            out.push(to_hex_digit(b % 16));
        }
        proof {
            assert(bytes@.take(i + 1).drop_last() =~= bytes@.take(i as int));
            assert(bytes@.take(i + 1).last() == b);
            assert(out@ =~= before + spelled(b));
        }
        i += 1;
    }
    proof {
        assert(bytes@.take(bytes@.len() as int) =~= bytes@);
    }
    string_of(&out)
}

/// The number for which a hexadecimal digit stands.
pub open spec fn hex_value(c: char) -> int {
    if c as int <= 0x39 {
        c as int - 0x30
    } else {
        c as int - 0x37
    }
}

/// The bytes that a path component spells.
pub open spec fn percent_decoded(s: Seq<char>) -> Seq<u8>
    decreases s.len(),
{
    if s.len() == 0 {
        Seq::empty()
    } else if s[0] == '%' && s.len() >= 3 {
        seq![(16 * hex_value(s[1]) + hex_value(s[2])) as u8] + percent_decoded(s.skip(3))
    } else {
        seq![s[0] as u8] + percent_decoded(s.skip(1))
    }
}

/// A spelling begins with that of the first byte.
proof fn encoding_begins(bytes: Seq<u8>)
    requires
        bytes.len() > 0,
    ensures
        percent_encoded(bytes) == spelled(bytes[0]) + percent_encoded(bytes.drop_first()),
    decreases bytes.len(),
{
    if bytes.len() > 1 {
        encoding_begins(bytes.drop_last());
        assert(bytes.drop_last().drop_first() =~= bytes.drop_first().drop_last());
        assert(percent_encoded(bytes) =~= spelled(bytes[0]) + percent_encoded(bytes.drop_first()));
    } else {
        assert(bytes.drop_last() =~= Seq::<u8>::empty());
        assert(bytes.drop_first() =~= Seq::<u8>::empty());
        assert(percent_encoded(bytes) =~= spelled(bytes[0]) + percent_encoded(bytes.drop_first()));
    }
}

/// Decoding gives back what was encoded.
pub proof fn decoding_undoes_encoding(bytes: Seq<u8>)
    ensures
        percent_decoded(percent_encoded(bytes)) == bytes,
    decreases bytes.len(),
{
    if bytes.len() > 0 {
        let b = bytes[0];
        let rest = bytes.drop_first();
        encoding_begins(bytes);
        decoding_undoes_encoding(rest);
        let s = percent_encoded(bytes);
        assert(s.skip(spelled(b).len() as int) =~= percent_encoded(rest));
        if unreserved(b) {
            assert(s[0] == b as char);
            assert(s[0] as u8 == b);
        } else {
            assert(s[0] == '%');
            assert(16 * hex_value(s[1]) + hex_value(s[2]) == b);
        }
        assert(percent_decoded(s) =~= seq![b] + rest);
        assert(seq![b] + rest =~= bytes);
    }
}

/// Two texts that are encoded alike are the same.
pub proof fn encoding_tells_apart(a: Seq<char>, b: Seq<char>)
    requires
        percent_encoded(vstd::utf8::encode_utf8(a)) == percent_encoded(vstd::utf8::encode_utf8(b)),
    ensures
        a == b,
{
    decoding_undoes_encoding(vstd::utf8::encode_utf8(a));
    decoding_undoes_encoding(vstd::utf8::encode_utf8(b));
    vstd::utf8::encode_utf8_decode_utf8(a);
    vstd::utf8::encode_utf8_decode_utf8(b);
}

/// An encoded component holds nothing but letters, digits, `-`, `_`, `.`, `~` and `%`.
pub proof fn encoding_is_plain(bytes: Seq<u8>)
    ensures
        forall|i: int|
            0 <= i < percent_encoded(bytes).len() ==> #[trigger] percent_encoded(bytes)[i] == '%'
                || exists|b: u8| unreserved(b) && percent_encoded(bytes)[i] == b as char,
    decreases bytes.len(),
{
    if bytes.len() > 0 {
        encoding_is_plain(bytes.drop_last());
        let s = percent_encoded(bytes);
        let before = percent_encoded(bytes.drop_last());
        let b = bytes.last();
        assert forall|i: int| 0 <= i < s.len() implies #[trigger] s[i] == '%' || exists|c: u8|
            unreserved(c) && s[i] == c as char by {
            if i < before.len() {
                assert(s[i] == before[i]);
            } else {
                let k = i - before.len();
                assert(s[i] == spelled(b)[k]);
                if unreserved(b) {
                    assert(unreserved(b) && s[i] == b as char);
                } else if k > 0 {
                    let n = if k == 1 {
                        b as int / 16
                    } else {
                        b as int % 16
                    };
                    let c: u8 = if n < 10 {
                        (0x30 + n) as u8
                    } else {
                        (0x37 + n) as u8
                    };
                    assert(unreserved(c) && s[i] == c as char);
                }
            }
        }
    }
}

/// How long the name of a model is that `s` begins with: up to a `:`, `/` or `?`.
pub open spec fn model_length(s: Seq<char>) -> int
    decreases s.len(),
{
    if s.len() == 0 || s[0] == ':' || s[0] == '/' || s[0] == '?' {
        0
    } else {
        1 + model_length(s.drop_first())
    }
}

/// The name of a model is within the text that begins with it.
proof fn model_length_fits(s: Seq<char>)
    ensures
        0 <= model_length(s) <= s.len(),
    decreases s.len(),
{
    if s.len() > 0 {
        model_length_fits(s.drop_first());
    }
}

/// How long the name of a model is that `s` begins with.
fn measure_model(s: &[char]) -> (r: usize)
    ensures
        r == model_length(s@),
        r <= s@.len(),
{
    let mut i: usize = 0;
    proof {
        assert(s@.skip(0) =~= s@);
    }
    while i < s.len() && s[i] != ':' && s[i] != '/' && s[i] != '?'
        invariant
            i <= s.len(),
            model_length(s@) == i + model_length(s@.skip(i as int)),
        decreases s.len() - i,
    {
        proof {
            assert(s@.skip(i as int).drop_first() =~= s@.skip(i + 1));
        }
        i += 1;
    }
    i
}

/// Redirections as pairs of texts.
pub open spec fn rules(redirects: Seq<(&str, &str)>) -> Seq<(Seq<char>, Seq<char>)> {
    Seq::new(redirects.len(), |i: int| (redirects[i].0@, redirects[i].1@))
}

/// Where the first rule for `model` sends it.
pub open spec fn destination(model: Seq<char>, rules: Seq<(Seq<char>, Seq<char>)>) -> Option<
    Seq<char>,
>
    decreases rules.len(),
{
    if rules.len() == 0 {
        None
    } else if rules[0].0 == model {
        Some(rules[0].1)
    } else {
        destination(model, rules.drop_first())
    }
}

/// Where the name of a model begins in a path: after the first `/models/`.
pub open spec fn model_start(path: Seq<char>) -> Option<int> {
    match text::first_occurrence(path, "/models/"@) {
        Some(i) => Some(i + "/models/"@.len()),
        None => None,
    }
}

/// `path` with the model that it names replaced by where the first rule for it sends it.
pub open spec fn redirected(path: Seq<char>, rules: Seq<(Seq<char>, Seq<char>)>) -> Seq<char> {
    match model_start(path) {
        Some(start) => {
            let rest = path.skip(start);
            let n = model_length(rest);
            match destination(rest.take(n), rules) {
                Some(to) if n > 0 => path.take(start) + to + rest.skip(n),
                _ => path,
            }
        },
        None => path,
    }
}

/// Rewrites the model identifier in Gemini API paths if it matches any configured redirect rule.
pub fn rewrite_model_path(path_and_query: &str, redirects: &[(&str, &str)]) -> (r: String)
    ensures
        r@ == redirected(path_and_query@, rules(redirects@)),
{
    let path = chars_of(path_and_query);
    let marker = chars_of("/models/");
    if let Some(i) = find(&path, &marker) {
        proof {
            assert(i + marker@.len() <= path@.len() && path@.len() == path.len());
        }
        let start: usize = i + marker.len();
        let rest = vstd::slice::slice_subrange(&path, start, path.len());
        let n = measure_model(rest);
        let model = vstd::slice::slice_subrange(rest, 0, n);
        proof {
            assert(rest@ =~= path@.skip(start as int));
            assert(model@ =~= rest@.take(n as int));
        }
        if n > 0 {
            let ghost all = rules(redirects@);
            proof {
                assert(all.skip(0) =~= all);
            }
            let mut k: usize = 0;
            while k < redirects.len()
                invariant
                    k <= redirects.len(),
                    n > 0,
                    n <= rest@.len(),
                    start <= path@.len(),
                    path@ == path_and_query@,
                    model_start(path@) == Some(start as int),
                    rest@ == path@.skip(start as int),
                    n == model_length(rest@),
                    model@ == rest@.take(n as int),
                    all == rules(redirects@),
                    destination(model@, all) == destination(model@, all.skip(k as int)),
                decreases redirects.len() - k,
            {
                let (from, to) = redirects[k];
                proof {
                    assert(all.skip(k as int)[0] == (from@, to@));
                    assert(all.skip(k as int).drop_first() =~= all.skip(k + 1));
                }
                if same(model, &chars_of(from)) {
                    let head = string_of(vstd::slice::slice_subrange(&path, 0, start));
                    let tail = string_of(vstd::slice::slice_subrange(rest, n, rest.len()));
                    let r = head.concat(to).concat(tail.as_str());
                    proof {
                        assert(head@ =~= path@.take(start as int));
                        assert(tail@ =~= rest@.skip(n as int));
                    }
                    return r;
                }
                k += 1;
            }
        }
    }
    path_and_query.to_owned()
}

/// Without rules every path stays as it is.
pub proof fn no_rules_no_rewriting(path: Seq<char>)
    ensures
        redirected(path, Seq::empty()) == path,
{
}

/// A path without a model, or with a model that no rule names, stays as it is.
pub proof fn unmatched_path_is_kept(path: Seq<char>, rules: Seq<(Seq<char>, Seq<char>)>)
    requires
        model_start(path) matches Some(start) ==> {
            let rest = path.skip(start);
            destination(rest.take(model_length(rest)), rules) is None
        },
    ensures
        redirected(path, rules) == path,
{
}

/// Rewriting changes nothing of a path but the name of its model: what comes before and after it
/// stays.
pub proof fn rewriting_keeps_the_rest(path: Seq<char>, rules: Seq<(Seq<char>, Seq<char>)>)
    ensures
        redirected(path, rules) == path || exists|
            head: Seq<char>,
            model: Seq<char>,
            to: Seq<char>,
            tail: Seq<char>,
        | #[trigger]
            (head + model + tail) == path && #[trigger] (head + to + tail) == redirected(
                path,
                rules,
            ) && destination(model, rules) == Some(to) && model.len() > 0,
{
    if let Some(start) = model_start(path) {
        let rest = path.skip(start);
        let n = model_length(rest);
        model_length_fits(rest);
        model_within_path(path);
        if let Some(to) = destination(rest.take(n), rules) {
            if n > 0 {
                let head = path.take(start);
                let model = rest.take(n);
                let tail = rest.skip(n);
                assert(head + model + tail =~= path);
                assert(head + to + tail == redirected(path, rules));
            }
        }
    }
}

/// The name of a model begins within the path.
proof fn model_within_path(path: Seq<char>)
    ensures
        model_start(path) matches Some(start) ==> 0 <= start <= path.len(),
{
    text::first_occurrence_occurs(path, "/models/"@);
}

/// `path` asks for the generation, counting or embedding of content.
pub open spec fn generation_path(path: Seq<char>) -> bool {
    text::occurs_any(
        path,
        seq!["streamGenerateContent"@, "generateContent"@, "countTokens"@, "embedContent"@],
    )
}

/// Whether `path` asks for the generation, counting or embedding of content.
pub fn is_generation_path(path: &str) -> (r: bool)
    ensures
        r == generation_path(path@),
{
    let calls = vec!["streamGenerateContent", "generateContent", "countTokens", "embedContent"];
    proof {
        assert(text::texts(calls@) =~= seq![
            "streamGenerateContent"@,
            "generateContent"@,
            "countTokens"@,
            "embedContent"@,
        ]);
    }
    contains_any(&chars_of(path), &calls)
}

/// The calls whose answer is generated content.
pub open spec fn content_calls() -> Seq<Seq<char>> {
    seq![":generateContent"@, ":streamGenerateContent"@]
}

/// The calls whose answer must not be empty.
pub open spec fn answering_calls() -> Seq<Seq<char>> {
    seq![":generateContent"@, ":streamGenerateContent"@, ":countTokens"@, ":embedContent"@]
}

/// Whether `path` makes one of the calls whose answer is generated content.
pub fn is_content_call(path: &str) -> (r: bool)
    ensures
        r == text::occurs_any(path@, content_calls()),
{
    let calls = vec![":generateContent", ":streamGenerateContent"];
    proof {
        assert(text::texts(calls@) =~= content_calls());
    }
    contains_any(&chars_of(path), &calls)
}

/// Whether `path` makes one of the calls whose answer must not be empty.
pub fn is_answering_call(path: &str) -> (r: bool)
    ensures
        r == text::occurs_any(path@, answering_calls()),
{
    let calls = vec![":generateContent", ":streamGenerateContent", ":countTokens", ":embedContent"];
    proof {
        assert(text::texts(calls@) =~= answering_calls());
    }
    contains_any(&chars_of(path), &calls)
}

/// Whether the try at hand, counted from 0, is the last of the three that a node gets.
pub fn should_switch_for_attempt(attempt: u32) -> (r: bool)
    ensures
        r == (attempt % 3 == 2),
{
    attempt % 3 == 2
}

/// The headers that concern one connection and are not passed on.
pub open spec fn connection_headers() -> Seq<Seq<char>> {
    seq![
        "host"@,
        "connection"@,
        "keep-alive"@,
        "proxy-authenticate"@,
        "proxy-authorization"@,
        "te"@,
        "trailers"@,
        "transfer-encoding"@,
        "upgrade"@,
        "content-length"@,
    ]
}

/// Whether a header, whose name is in lower case, concerns one connection and is not passed on.
pub fn is_hop_by_hop(header_name: &str) -> (r: bool)
    ensures
        r == text::one_of(header_name@, connection_headers()),
{
    let names = vec![
        "host",
        "connection",
        "keep-alive",
        "proxy-authenticate",
        "proxy-authorization",
        "te",
        "trailers",
        "transfer-encoding",
        "upgrade",
        "content-length",
    ];
    proof {
        assert(text::texts(names@) =~= connection_headers());
    }
    is_one_of(&chars_of(header_name), &names)
}

/// The settings of the proxy, and the upstreams that it knows.
pub struct ProxyState {
    pub config: Config,
    pub upstream_base: String,
    pub cloudcode_base: String,
}

impl ProxyState {
    /// The upstreams are those that `config` names, without slashes at their end.
    pub open spec fn well_formed(self) -> bool {
        &&& self.upstream_base@ == text::without_trailing(self.config.upstream@, '/')
        &&& self.cloudcode_base@ == text::without_trailing(self.config.cloudcode_upstream@, '/')
    }

    /// The upstream for a path: the Cloud Code API for `v1internal`, else the Gemini API.
    pub open spec fn upstream_for(self, path: Seq<char>) -> Seq<char> {
        if text::occurs(path, "v1internal"@) {
            self.cloudcode_base@
        } else {
            self.upstream_base@
        }
    }

    pub fn new(config: Config) -> (r: Self)
        ensures
            r.well_formed(),
            r.config == config,
    {
        let upstream_base = text::trim_end_char(config.upstream.as_str(), '/');
        let cloudcode_base = text::trim_end_char(config.cloudcode_upstream.as_str(), '/');
        ProxyState { config, upstream_base, cloudcode_base }
    }

    /// Select upstream based on path: Cloud Code API (v1internal) vs Gemini API
    pub fn select_upstream(&self, effective_path: &str) -> (r: &str)
        ensures
            r@ == self.upstream_for(effective_path@),
    {
        if text::contains(&chars_of(effective_path), "v1internal") {
            self.cloudcode_base.as_str()
        } else {
            self.upstream_base.as_str()
        }
    }

    /// The path that is asked for upstream: that of the request, its model redirected.
    pub fn effective_path(&self, path_and_query: &str) -> (r: String)
        ensures
            r@ == redirected(
                path_and_query@,
                crate::config::redirections(text::strings(self.config.redirect_model@)),
            ),
    {
        rewrite_model_path(path_and_query, &self.config.model_redirects())
    }

    /// The address that a request with this path goes to.
    pub fn target_url(&self, effective_path: &str) -> (r: String)
        ensures
            r@ == self.upstream_for(effective_path@) + effective_path@,
    {
        self.select_upstream(effective_path).to_owned().concat(effective_path)
    }
}

/// The characters at which the name of a model ends.
spec fn ends_model(c: char) -> bool {
    c == ':' || c == '/' || c == '?'
}

/// The name of a model goes on up to the first `:`, `/` or `?`, and to the end where there is none.
pub proof fn model_ends_at_delimiter(s: Seq<char>)
    ensures
        0 <= model_length(s) <= s.len(),
        forall|i: int|
            0 <= i < model_length(s) ==> #[trigger] s[i] != ':' && s[i] != '/' && s[i] != '?',
        model_length(s) < s.len() ==> s[model_length(s)] == ':' || s[model_length(s)] == '/'
            || s[model_length(s)] == '?',
    decreases s.len(),
{
    if s.len() > 0 && !ends_model(s[0]) {
        let rest = s.drop_first();
        model_ends_at_delimiter(rest);
        assert forall|i: int| 0 <= i < model_length(s) implies #[trigger] s[i] != ':' && s[i] != '/'
            && s[i] != '?' by {
            if i > 0 {
                assert(rest[i - 1] == s[i]);
            }
        }
    }
}

/// A model is sent where the first rule for just that model sends it; and nowhere where no rule is
/// for just that model.
pub proof fn the_first_rule_for_a_model_counts(
    model: Seq<char>,
    rules: Seq<(Seq<char>, Seq<char>)>,
)
    ensures
        match destination(model, rules) {
            Some(to) => exists|k: int|
                0 <= k < rules.len() && #[trigger] rules[k] == (model, to) && forall|j: int|
                    0 <= j < k ==> (#[trigger] rules[j]).0 != model,
            None => forall|k: int| 0 <= k < rules.len() ==> (#[trigger] rules[k]).0 != model,
        },
    decreases rules.len(),
{
    if rules.len() > 0 {
        let rest = rules.drop_first();
        the_first_rule_for_a_model_counts(model, rest);
        if rules[0].0 == model {
            assert(rules[0] == (model, rules[0].1));
        } else {
            match destination(model, rules) {
                Some(to) => {
                    let k = choose|k: int|
                        0 <= k < rest.len() && #[trigger] rest[k] == (model, to) && forall|j: int|
                            0 <= j < k ==> (#[trigger] rest[j]).0 != model;
                    assert(rules[k + 1] == (model, to));
                    assert forall|j: int| 0 <= j < k + 1 implies (#[trigger] rules[j]).0
                        != model by {
                        if j > 0 {
                            assert(rest[j - 1].0 != model);
                        }
                    }
                },
                None => {
                    assert forall|k: int| 0 <= k < rules.len() implies (#[trigger] rules[k]).0
                        != model by {
                        if k > 0 {
                            assert(rest[k - 1].0 != model);
                        }
                    }
                },
            }
        }
    }
}

/// A path is `head`, the first `/models/` in it, `model` and `tail`: `model` is all up to a `:`,
/// `/` or `?`, or to the end.
pub open spec fn path_names_model(
    path: Seq<char>,
    head: Seq<char>,
    model: Seq<char>,
    tail: Seq<char>,
) -> bool {
    &&& path == head + "/models/"@ + model + tail
    &&& forall|i: int|
        0 <= i < head.len() ==> !(#[trigger] path.subrange(i, i + "/models/"@.len())
            == "/models/"@)
    &&& forall|i: int|
        0 <= i < model.len() ==> #[trigger] model[i] != ':' && model[i] != '/' && model[i] != '?'
    &&& tail.len() == 0 || tail[0] == ':' || tail[0] == '/' || tail[0] == '?'
}

/// A path with a model for which there is a rule is rewritten: the model is replaced by where the
/// first rule for just that model sends it, and all around it stays.
pub proof fn a_model_with_a_rule_is_replaced(
    path: Seq<char>,
    rules: Seq<(Seq<char>, Seq<char>)>,
    head: Seq<char>,
    model: Seq<char>,
    tail: Seq<char>,
    k: int,
)
    requires
        path_names_model(path, head, model, tail),
        model.len() > 0,
        0 <= k < rules.len(),
        rules[k].0 == model,
        forall|j: int| 0 <= j < k ==> (#[trigger] rules[j]).0 != model,
    ensures
        redirected(path, rules) == head + "/models/"@ + rules[k].1 + tail,
{
    model_is_found(path, head, model, tail);
    the_first_rule_for_a_model_counts(model, rules);
    let to = destination(model, rules)->0;
    assert(rules[k].0 == model);
    let m = choose|m: int|
        0 <= m < rules.len() && #[trigger] rules[m] == (model, to) && forall|j: int|
            0 <= j < m ==> (#[trigger] rules[j]).0 != model;
    if m < k {
        assert(rules[m].0 != model);
    } else if k < m {
        assert(rules[k].0 != model);
    }
    assert(path.take((head + "/models/"@).len() as int) =~= head + "/models/"@);
    let rest = path.skip((head + "/models/"@).len() as int);
    assert(rest.skip(model.len() as int) =~= tail);
}

/// A path with a model for which there is no rule stays as it is, also where a rule is for a model
/// whose name begins in the same way.
pub proof fn a_model_without_a_rule_is_kept(
    path: Seq<char>,
    rules: Seq<(Seq<char>, Seq<char>)>,
    head: Seq<char>,
    model: Seq<char>,
    tail: Seq<char>,
)
    requires
        path_names_model(path, head, model, tail),
        model.len() == 0 || forall|k: int|
            0 <= k < rules.len() ==> (#[trigger] rules[k]).0 != model,
    ensures
        redirected(path, rules) == path,
{
    model_is_found(path, head, model, tail);
    the_first_rule_for_a_model_counts(model, rules);
}

/// A path without `/models/` stays as it is.
pub proof fn a_path_without_model_is_kept(path: Seq<char>, rules: Seq<(Seq<char>, Seq<char>)>)
    requires
        forall|head: Seq<char>, tail: Seq<char>| #[trigger] (head + "/models/"@ + tail) != path,
    ensures
        redirected(path, rules) == path,
{
    text::occurrence_splits(path, "/models/"@, Seq::empty(), Seq::empty());
    text::first_occurrence_occurs(path, "/models/"@);
}

/// In such a path the model is where it is looked for.
proof fn model_is_found(path: Seq<char>, head: Seq<char>, model: Seq<char>, tail: Seq<char>)
    requires
        path_names_model(path, head, model, tail),
    ensures
        model_start(path) == Some((head + "/models/"@).len() as int),
        path.skip((head + "/models/"@).len() as int) == model + tail,
        model_length(model + tail) == model.len(),
        (model + tail).take(model.len() as int) == model,
{
    let marker = "/models/"@;
    let rest = model + tail;
    text::first_occurrence_is_first(path, marker);
    assert(path.subrange(head.len() as int, (head.len() + marker.len()) as int) =~= marker);
    let i = text::first_occurrence(path, marker)->0;
    if i < head.len() {
        assert(!(path.subrange(i, i + marker.len()) == marker));
    }
    assert(path.skip((head + marker).len() as int) =~= rest);
    model_ends_at_delimiter(rest);
    let n = model_length(rest);
    if n < model.len() {
        assert(rest[n] == model[n]);
    } else if n > model.len() {
        assert(rest[model.len() as int] == tail[0]);
    }
    assert(rest.take(model.len() as int) =~= model);
}

/// A component made of letters, digits, `-`, `_`, `.` and `~` is encoded as it is.
pub proof fn plain_component_is_kept(bytes: Seq<u8>)
    requires
        forall|i: int|
            0 <= i < bytes.len() ==> {
                let c = #[trigger] bytes[i] as char;
                'a' <= c && c <= 'z' || 'A' <= c && c <= 'Z' || '0' <= c && c <= '9' || c == '-'
                    || c == '_' || c == '.' || c == '~'
            },
    ensures
        percent_encoded(bytes) == Seq::new(bytes.len(), |i: int| bytes[i] as char),
    decreases bytes.len(),
{
    if bytes.len() > 0 {
        let front = bytes.drop_last();
        assert forall|i: int| 0 <= i < front.len() implies {
            let c = #[trigger] front[i] as char;
            'a' <= c && c <= 'z' || 'A' <= c && c <= 'Z' || '0' <= c && c <= '9' || c == '-' || c
                == '_' || c == '.' || c == '~'
        } by {
            assert(front[i] == bytes[i]);
        }
        plain_component_is_kept(front);
        assert(bytes[bytes.len() - 1] == bytes.last());
        assert(percent_encoded(bytes) =~= Seq::new(bytes.len(), |i: int| bytes[i] as char));
    } else {
        assert(percent_encoded(bytes) =~= Seq::new(bytes.len(), |i: int| bytes[i] as char));
    }
}

/// Any other byte is encoded as `%` and two upper-case hexadecimal digits, the higher one first.
pub proof fn other_bytes_are_spelled_in_hex(b: u8)
    requires
        !({
            let c = b as char;
            'a' <= c && c <= 'z' || 'A' <= c && c <= 'Z' || '0' <= c && c <= '9' || c == '-' || c
                == '_' || c == '.' || c == '~'
        }),
    ensures
        ({
            let digits = seq![
                '0', '1', '2', '3', '4', '5', '6', '7', '8', '9', 'A', 'B', 'C', 'D', 'E', 'F',
            ];
            percent_encoded(seq![b]) == seq!['%', digits[b as int / 16], digits[b as int % 16]]
        }),
{
    let one = seq![b];
    reveal_with_fuel(percent_encoded, 2);
    assert(one.drop_last() =~= Seq::<u8>::empty());
    assert(one.last() == b);
    let digits = seq![
        '0', '1', '2', '3', '4', '5', '6', '7', '8', '9', 'A', 'B', 'C', 'D', 'E', 'F',
    ];
    assert forall|n: int| 0 <= n < 16 implies #[trigger] digits[n] == hex_digit(n) by {}
    assert(percent_encoded(one) =~= spelled(b));
    assert(digits[b as int / 16] == hex_digit(b as int / 16));
    assert(digits[b as int % 16] == hex_digit(b as int % 16));
}

/// What is encoded in two parts is encoded as the two parts.
pub proof fn encoding_goes_byte_by_byte(a: Seq<u8>, b: Seq<u8>)
    ensures
        percent_encoded(a + b) == percent_encoded(a) + percent_encoded(b),
    decreases b.len(),
{
    if b.len() == 0 {
        assert(a + b =~= a);
        assert(percent_encoded(a) + percent_encoded(b) =~= percent_encoded(a));
    } else {
        encoding_goes_byte_by_byte(a, b.drop_last());
        assert((a + b).drop_last() =~= a + b.drop_last());
        assert((a + b).last() == b.last());
        assert(percent_encoded(a + b) =~= percent_encoded(a) + percent_encoded(b));
    }
}

/// A path asks for generation just where it names one of the calls that generate, stream, count or
/// embed.
pub proof fn generation_is_told_by_the_call(path: Seq<char>)
    ensures
        generation_path(path) <==> text::occurs(path, "streamGenerateContent"@) || text::occurs(
            path,
            "generateContent"@,
        ) || text::occurs(path, "countTokens"@) || text::occurs(path, "embedContent"@),
{
    let calls = seq![
        "streamGenerateContent"@,
        "generateContent"@,
        "countTokens"@,
        "embedContent"@,
    ];
    assert(calls[0] == "streamGenerateContent"@ && calls[1] == "generateContent"@ && calls[2]
        == "countTokens"@ && calls[3] == "embedContent"@);
}

/// Generated content is the answer to the calls that generate or stream it; an answer that must not
/// be empty is also owed to those that count tokens or embed.
pub proof fn content_is_told_by_the_call(path: Seq<char>)
    ensures
        text::occurs_any(path, content_calls()) <==> text::occurs(path, ":generateContent"@)
            || text::occurs(path, ":streamGenerateContent"@),
        text::occurs_any(path, answering_calls()) <==> text::occurs(path, ":generateContent"@)
            || text::occurs(path, ":streamGenerateContent"@) || text::occurs(path, ":countTokens"@)
            || text::occurs(path, ":embedContent"@),
{
    let content = content_calls();
    let answering = answering_calls();
    assert(content[0] == ":generateContent"@ && content[1] == ":streamGenerateContent"@);
    assert(answering[0] == ":generateContent"@ && answering[1] == ":streamGenerateContent"@
        && answering[2] == ":countTokens"@ && answering[3] == ":embedContent"@);
}

/// The headers that are not passed on are those of one connection: of HTTP's hop-by-hop headers,
/// the host and the length.
pub proof fn connection_headers_stay_behind(name: Seq<char>)
    ensures
        text::one_of(name, connection_headers()) <==> name == "host"@ || name == "connection"@
            || name == "keep-alive"@ || name == "proxy-authenticate"@ || name
            == "proxy-authorization"@ || name == "te"@ || name == "trailers"@ || name
            == "transfer-encoding"@ || name == "upgrade"@ || name == "content-length"@,
{
    let all = connection_headers();
    assert(all[0] == "host"@ && all[1] == "connection"@ && all[2] == "keep-alive"@ && all[3]
        == "proxy-authenticate"@ && all[4] == "proxy-authorization"@ && all[5] == "te"@ && all[6]
        == "trailers"@ && all[7] == "transfer-encoding"@ && all[8] == "upgrade"@ && all[9]
        == "content-length"@);
}

/// A path of the internal API goes to the Cloud Code upstream, any other to the Gemini API; and the
/// addresses of the upstreams are those of the settings, but for slashes at their end.
pub proof fn the_path_tells_the_upstream(state: ProxyState, head: Seq<char>, tail: Seq<char>)
    requires
        state.well_formed(),
    ensures
        ({
            let to = state.upstream_for(head + "v1internal"@ + tail);
            &&& to == state.cloudcode_base@
            &&& to.len() > 0 ==> to.last() != '/'
            &&& state.config.cloudcode_upstream@.len() > 0
                && state.config.cloudcode_upstream@.last() != '/' ==> to
                == state.config.cloudcode_upstream@
        }),
        !text::occurs(head, "v1internal"@) ==> {
            let to = state.upstream_for(head);
            &&& to == state.upstream_base@
            &&& to.len() > 0 ==> to.last() != '/'
            &&& state.config.upstream@.len() > 0 && state.config.upstream@.last() != '/' ==> to
                == state.config.upstream@
        },
{
    text::occurrence_splits(head + "v1internal"@ + tail, "v1internal"@, head, tail);
    text::trailing_characters_are_taken(state.config.cloudcode_upstream@, '/');
    text::trailing_characters_are_taken(state.config.upstream@, '/');
}

} // verus!
