//! What a request says of itself: its purpose, its source and its name.
use crate::channel;
use crate::clock;
use crate::json;
use crate::json::{Json, JsonTree};
use crate::numeral;
use crate::text;
use vstd::prelude::*;
use vstd::string::*;

verus! {

/// A header of a request. It has no value where that is not text.
pub struct Header {
    pub name: String,
    pub value: Option<String>,
}

/// What a header holds.
pub struct HeaderView {
    pub name: Seq<char>,
    pub value: Option<Seq<char>>,
}

impl View for Header {
    type V = HeaderView;

    open spec fn view(&self) -> HeaderView {
        HeaderView { name: self.name@, value: channel::maybe_text(self.value) }
    }
}

/// What each of `headers` holds.
pub open spec fn header_views(headers: Seq<Header>) -> Seq<HeaderView> {
    Seq::new(headers.len(), |i: int| headers[i]@)
}

/// The text of the first header with the name `name`.
pub open spec fn header_text(headers: Seq<HeaderView>, name: Seq<char>) -> Option<Seq<char>>
    decreases headers.len(),
{
    if headers.len() == 0 {
        None
    } else if channel::same_word(headers[0].name, name) {
        headers[0].value
    } else {
        header_text(headers.skip(1), name)
    }
}

/// `text` without white space at its ends, and in lower case where `lower` asks
/// for it.
pub open spec fn plain(text: Seq<char>, lower: bool) -> Seq<char> {
    if lower {
        text::lowercase(text::trimmed(text))
    } else {
        text::trimmed(text)
    }
}

/// The plain form of a text that may be there; empty where it is not.
pub open spec fn plain_or_empty(text: Option<Seq<char>>, lower: bool) -> Seq<char> {
    match text {
        Some(text) => plain(text, lower),
        None => Seq::<char>::empty(),
    }
}

/// The plain form of `text`.
fn plain_form(text: &str, lower: bool) -> (r: String)
    ensures
        r@ == plain(text@, lower),
{
    if lower {
        text::to_lowercase(text::trim(text))
    } else {
        text::trim(text).to_owned()
    }
}

/// The plain form of the first header with the name `name`.
fn plain_header(headers: &Vec<Header>, name: &str, lower: bool) -> (r: String)
    ensures
        r@ == plain_or_empty(header_text(header_views(headers@), name@), lower),
{
    let ghost all = header_views(headers@);
    let mut i: usize = 0;
    assert(all.skip(0) =~= all);
    while i < headers.len()
        invariant
            i <= headers@.len(),
            all == header_views(headers@),
            header_text(all, name@) == header_text(all.skip(i as int), name@),
        decreases headers@.len() - i,
    {
        assert(all.skip(i as int).skip(1) =~= all.skip(i + 1));
        if text::eq_ignore_ascii_case(headers[i].name.as_str(), name) {
            return match &headers[i].value {
                Some(value) => plain_form(value.as_str(), lower),
                None => String::new(),
            };
        }
        i += 1;
    }
    String::new()
}

/// The text of the first header with the name `name`, without white space at
/// its ends.
pub fn header_value(headers: &Vec<Header>, name: &str) -> (r: String)
    ensures
        r@ == plain_or_empty(header_text(header_views(headers@), name@), false),
{
    plain_header(headers, name, false)
}

/// The text of the first header with the name `name`, in lower case and without
/// white space at its ends.
pub fn header_hint(headers: &Vec<Header>, name: &str) -> (r: String)
    ensures
        r@ == plain_or_empty(header_text(header_views(headers@), name@), true),
{
    plain_header(headers, name, true)
}

/// The plain form of the first of the members `keys` that is a text and leaves
/// anything.
pub open spec fn direct_hint(tree: JsonTree, keys: Seq<Seq<char>>, lower: bool) -> Option<Seq<char>>
    decreases keys.len(),
{
    if keys.len() == 0 {
        None
    } else {
        match json::text_member(tree, keys[0]) {
            Some(text) if plain(text, lower).len() > 0 => Some(plain(text, lower)),
            _ => direct_hint(tree, keys.skip(1), lower),
        }
    }
}

/// What the first of `places` says under one of `keys`; empty where none does.
pub open spec fn placed_hint(
    places: Seq<Option<JsonTree>>,
    keys: Seq<Seq<char>>,
    lower: bool,
) -> Seq<char>
    decreases places.len(),
{
    if places.len() == 0 {
        Seq::<char>::empty()
    } else {
        match places[0] {
            Some(tree) if direct_hint(tree, keys, lower) is Some => direct_hint(
                tree,
                keys,
                lower,
            )->0,
            _ => placed_hint(places.skip(1), keys, lower),
        }
    }
}

/// The places of a request where it may say something of itself.
pub open spec fn hint_places(request: JsonTree) -> Seq<Option<JsonTree>> {
    seq![
        Some(request),
        request.get("metadata"@),
        request.get("extra_body"@),
        request.get("obp"@),
    ]
}

/// What a request says under one of `keys`; empty where it says nothing.
pub open spec fn request_hint(
    request: Option<JsonTree>,
    keys: Seq<Seq<char>>,
    lower: bool,
) -> Seq<char> {
    match request {
        Some(request) => placed_hint(hint_places(request), keys, lower),
        None => Seq::<char>::empty(),
    }
}

/// The plain form of the first of the members `keys` that is a text and leaves
/// anything.
fn plain_member(value: &Json, keys: &Vec<&str>, lower: bool) -> (r: Option<String>)
    ensures
        channel::maybe_text(r) == direct_hint(value.tree(), text::strs(keys@), lower),
{
    let ghost all = text::strs(keys@);
    let mut i: usize = 0;
    assert(all.skip(0) =~= all);
    while i < keys.len()
        invariant
            i <= keys@.len(),
            all == text::strs(keys@),
            direct_hint(value.tree(), all, lower) == direct_hint(
                value.tree(),
                all.skip(i as int),
                lower,
            ),
        decreases keys@.len() - i,
    {
        assert(all.skip(i as int).skip(1) =~= all.skip(i + 1));
        if let Some(text) = value.text_member(keys[i]) {
            let found: String = plain_form(text, lower);
            if !found.as_str().is_empty() {
                return Some(found);
            }
        }
        i += 1;
    }
    None
}

/// The first of the members `keys` that holds a text, in lower case.
pub fn json_direct_hint(value: &Json, keys: &Vec<&str>) -> (r: Option<String>)
    ensures
        channel::maybe_text(r) == direct_hint(value.tree(), text::strs(keys@), true),
{
    plain_member(value, keys, true)
}

/// The first of the members `keys` that holds a text.
pub fn json_direct_hint_preserve(value: &Json, keys: &Vec<&str>) -> (r: Option<String>)
    ensures
        channel::maybe_text(r) == direct_hint(value.tree(), text::strs(keys@), false),
{
    plain_member(value, keys, false)
}

/// What a list of values that may be there holds.
pub open spec fn maybe_trees(list: Seq<Option<&Json>>) -> Seq<Option<JsonTree>> {
    Seq::new(list.len(), |i: int| json::maybe_tree_ref(list[i]))
}

/// What a request says under one of `keys`.
fn plain_hint(value: Option<&Json>, keys: &Vec<&str>, lower: bool) -> (r: String)
    ensures
        r@ == request_hint(json::maybe_tree_ref(value), text::strs(keys@), lower),
{
    let request: &Json = match value {
        Some(request) => request,
        None => {
            return String::new();
        },
    };
    let places: Vec<Option<&Json>> = vec![
        Some(request),
        request.get("metadata"),
        request.get("extra_body"),
        request.get("obp"),
    ];
    let ghost all = maybe_trees(places@);
    assert(all =~= hint_places(request.tree()));
    let ghost names = text::strs(keys@);
    let mut i: usize = 0;
    assert(all.skip(0) =~= all);
    while i < places.len()
        invariant
            i <= places@.len(),
            all == maybe_trees(places@),
            names == text::strs(keys@),
            request_hint(json::maybe_tree_ref(value), names, lower) == placed_hint(
                all.skip(i as int),
                names,
                lower,
            ),
        decreases places@.len() - i,
    {
        assert(all.skip(i as int).skip(1) =~= all.skip(i + 1));
        assert(all.skip(i as int)[0] == json::maybe_tree_ref(places@[i as int]));
        if let Some(place) = places[i] {
            if let Some(found) = plain_member(place, keys, lower) {
                return found;
            }
        }
        i += 1;
    }
    String::new()
}

/// What a request says under one of `keys`, in lower case.
pub fn json_hint(value: Option<&Json>, keys: &Vec<&str>) -> (r: String)
    ensures
        r@ == request_hint(json::maybe_tree_ref(value), text::strs(keys@), true),
{
    plain_hint(value, keys, true)
}

/// What a request says under one of `keys`.
pub fn json_hint_preserve(value: Option<&Json>, keys: &Vec<&str>) -> (r: String)
    ensures
        r@ == request_hint(json::maybe_tree_ref(value), text::strs(keys@), false),
{
    plain_hint(value, keys, false)
}

/// The plain form of the first of `values` that is not blank; empty where all
/// are.
pub open spec fn first_filled(values: Seq<Seq<char>>, lower: bool) -> Seq<char>
    decreases values.len(),
{
    if values.len() == 0 {
        Seq::<char>::empty()
    } else if !text::blank(values[0]) {
        plain(values[0], lower)
    } else {
        first_filled(values.skip(1), lower)
    }
}

/// The plain form of the first of `values` that is not blank.
fn plain_first(values: &Vec<String>, lower: bool) -> (r: String)
    ensures
        r@ == first_filled(text::texts(values@), lower),
{
    let ghost all = text::texts(values@);
    let mut i: usize = 0;
    assert(all.skip(0) =~= all);
    while i < values.len()
        invariant
            i <= values@.len(),
            all == text::texts(values@),
            first_filled(all, lower) == first_filled(all.skip(i as int), lower),
        decreases values@.len() - i,
    {
        assert(all.skip(i as int).skip(1) =~= all.skip(i + 1));
        if !text::trim(values[i].as_str()).is_empty() {
            return plain_form(values[i].as_str(), lower);
        }
        i += 1;
    }
    String::new()
}

/// The first of `values` that is not blank, in lower case and without white
/// space at its ends.
pub fn first_non_empty(values: &Vec<String>) -> (r: String)
    ensures
        r@ == first_filled(text::texts(values@), true),
{
    plain_first(values, true)
}

/// The first of `values` that is not blank, without white space at its ends.
pub fn first_non_empty_preserve(values: &Vec<String>) -> (r: String)
    ensures
        r@ == first_filled(text::texts(values@), false),
{
    plain_first(values, false)
}

/// What the request was sent for.
pub struct RouteHints {
    pub purpose: String,
    pub intent: String,
}

/// What route hints hold.
#[verifier::ext_equal]
pub struct RouteHintsView {
    pub purpose: Seq<char>,
    pub intent: Seq<char>,
}

impl View for RouteHints {
    type V = RouteHintsView;

    open spec fn view(&self) -> RouteHintsView {
        RouteHintsView { purpose: self.purpose@, intent: self.intent@ }
    }
}

impl Default for RouteHints {
    fn default() -> (r: Self)
        ensures
            r@.purpose.len() == 0,
            r@.intent.len() == 0,
    {
        RouteHints { purpose: String::new(), intent: String::new() }
    }
}

/// The hints of a request.
pub open spec fn hints_of(headers: Seq<HeaderView>, request: Option<JsonTree>) -> RouteHintsView {
    RouteHintsView {
        purpose: first_filled(
            seq![
                plain_or_empty(header_text(headers, "x-obp-purpose"@), true),
                request_hint(
                    request,
                    seq!["obp_purpose"@, "x_obp_purpose"@, "purpose"@],
                    true,
                ),
            ],
            true,
        ),
        intent: first_filled(
            seq![
                plain_or_empty(header_text(headers, "x-obp-intent"@), true),
                request_hint(request, seq!["obp_intent"@, "x_obp_intent"@, "intent"@], true),
            ],
            true,
        ),
    }
}

impl RouteHints {
    /// The hints of a request.
    pub fn from_request(headers: &Vec<Header>, request_json: Option<&Json>) -> (r: Self)
        ensures
            r@ == hints_of(header_views(headers@), json::maybe_tree_ref(request_json)),
    {
        let keys: Vec<&str> = vec!["obp_purpose", "x_obp_purpose", "purpose"];
        assert(text::strs(keys@) =~= seq!["obp_purpose"@, "x_obp_purpose"@, "purpose"@]);
        let purposes: Vec<String> = vec![
            header_hint(headers, "x-obp-purpose"),
            json_hint(request_json, &keys),
        ];
        assert(text::texts(purposes@) =~= seq![purposes@[0]@, purposes@[1]@]);
        let keys: Vec<&str> = vec!["obp_intent", "x_obp_intent", "intent"];
        assert(text::strs(keys@) =~= seq!["obp_intent"@, "x_obp_intent"@, "intent"@]);
        let intents: Vec<String> = vec![
            header_hint(headers, "x-obp-intent"),
            json_hint(request_json, &keys),
        ];
        assert(text::texts(intents@) =~= seq![intents@[0]@, intents@[1]@]);
        RouteHints { purpose: first_non_empty(&purposes), intent: first_non_empty(&intents) }
    }
}

/// The characters that stay in the name of a request or of a source.
pub open spec fn name_char(c: char) -> bool {
    ||| 'a' <= c <= 'z'
    ||| 'A' <= c <= 'Z'
    ||| '0' <= c <= '9'
    ||| c == '-' || c == '_' || c == '.' || c == ':'
}

/// Does `c` stay in the name of a request or of a source?
fn is_name_char(c: char) -> (r: bool)
    ensures
        r == name_char(c),
{
    ('a' <= c && c <= 'z') || ('A' <= c && c <= 'Z') || ('0' <= c && c <= '9') || c == '-' || c
        == '_' || c == '.' || c == ':'
}

/// The characters of `s` that may stand in a name.
pub open spec fn name_chars(s: Seq<char>) -> Seq<char>
    decreases s.len(),
{
    if s.len() == 0 {
        s
    } else if name_char(s.last()) {
        name_chars(s.drop_last()).push(s.last())
    } else {
        name_chars(s.drop_last())
    }
}

/// `s` without hyphens at its ends, and then without white space there.
pub open spec fn bare_name(s: Seq<char>) -> Seq<char> {
    text::trimmed(text::without_leading(text::without_trailing(s, '-'), '-'))
}

/// The name that `s` gives a request: its characters that may stand in a name,
/// at most ninety-six of them.
pub open spec fn trace_name(s: Seq<char>) -> Option<Seq<char>> {
    let name = bare_name(text::shortened(name_chars(s), 96));
    if name.len() > 0 {
        Some(name)
    } else {
        None
    }
}

/// The name that `value` gives a request, where it gives one.
pub fn sanitize_trace_id(value: &str) -> (r: Option<String>)
    ensures
        channel::maybe_text(r) == trace_name(value@),
{
    let chars: Vec<char> = text::chars_of(value);
    let mut kept: String = String::new();
    let mut i: usize = 0;
    assert(value@.take(0) =~= Seq::<char>::empty());
    while i < chars.len()
        invariant
            i <= chars@.len(),
            chars@ == value@,
            kept@ == name_chars(value@.take(i as int)),
        decreases chars@.len() - i,
    {
        assert(value@.take(i + 1).drop_last() =~= value@.take(i as int));
        if is_name_char(chars[i]) {
            kept.push(chars[i]);
        }
        i += 1;
    }
    assert(value@.take(value@.len() as int) =~= value@);
    let short: String = text::take_chars(kept.as_str(), 96);
    let name: &str = text::trim(
        text::trim_start_char(text::trim_end_char(short.as_str(), '-'), '-'),
    );
    if name.is_empty() {
        None
    } else {
        Some(name.to_owned())
    }
}

/// `s` with a hyphen for each character that may not stand in a name.
pub open spec fn hyphenated(s: Seq<char>) -> Seq<char> {
    Seq::new(
        s.len(),
        |i: int|
            if name_char(s[i]) {
                s[i]
            } else {
                '-'
            },
    )
}

/// The name of a source: at most eighty characters.
pub open spec fn source_name(source: Seq<char>) -> Seq<char> {
    let name = bare_name(hyphenated(source));
    if name.len() == 0 {
        "unknown-source"@
    } else {
        text::shortened(name, 80)
    }
}

/// The name of a source.
pub fn sanitize_source(source: &str) -> (r: String)
    ensures
        r@ == source_name(source@),
{
    let chars: Vec<char> = text::chars_of(source);
    let mut out: String = String::new();
    let mut i: usize = 0;
    while i < chars.len()
        invariant
            i <= chars@.len(),
            chars@ == source@,
            out@ == hyphenated(source@).take(i as int),
        decreases chars@.len() - i,
    {
        if is_name_char(chars[i]) {
            out.push(chars[i]);
        } else {
            out.push('-');
        }
        assert(out@ =~= hyphenated(source@).take(i + 1));
        i += 1;
    }
    assert(hyphenated(source@).take(source@.len() as int) =~= hyphenated(source@));
    let name: &str = text::trim(
        text::trim_start_char(text::trim_end_char(out.as_str(), '-'), '-'),
    );
    if name.is_empty() {
        "unknown-source".to_owned()
    } else {
        text::take_chars(name, 80)
    }
}

/// The source of a request.
pub open spec fn source_of(headers: Seq<HeaderView>, request: Option<JsonTree>) -> Seq<char> {
    source_name(
        first_filled(
            seq![
                plain_or_empty(header_text(headers, "x-obp-source"@), true),
                plain_or_empty(header_text(headers, "x-nanobot-source"@), true),
                request_hint(request, seq!["obp_source"@, "x_obp_source"@, "source"@], true),
            ],
            true,
        ),
    )
}

/// The source of a request.
pub fn request_source(headers: &Vec<Header>, request_json: Option<&Json>) -> (r: String)
    ensures
        r@ == source_of(header_views(headers@), json::maybe_tree_ref(request_json)),
{
    let keys: Vec<&str> = vec!["obp_source", "x_obp_source", "source"];
    assert(text::strs(keys@) =~= seq!["obp_source"@, "x_obp_source"@, "source"@]);
    let sources: Vec<String> = vec![
        header_hint(headers, "x-obp-source"),
        header_hint(headers, "x-nanobot-source"),
        json_hint(request_json, &keys),
    ];
    assert(text::texts(sources@) =~= seq![sources@[0]@, sources@[1]@, sources@[2]@]);
    sanitize_source(first_non_empty(&sources).as_str())
}

/// The name that a request gives itself, where it does.
pub open spec fn given_name(headers: Seq<HeaderView>, request: Option<JsonTree>) -> Option<
    Seq<char>,
> {
    trace_name(
        first_filled(
            seq![
                plain_or_empty(header_text(headers, "x-obp-request-id"@), false),
                plain_or_empty(header_text(headers, "x-request-id"@), false),
                request_hint(
                    request,
                    seq!["obp_request_id"@, "x_obp_request_id"@, "request_id"@],
                    false,
                ),
            ],
            false,
        ),
    )
}

/// The name of a request that names itself nothing, at the time `nanos`.
pub open spec fn made_up_name(nanos: u128) -> Seq<char> {
    "obp-"@ + numeral::numeral(nanos as int, 16)
}

/// The name of a request, at the time `nanos`.
pub open spec fn name_of(
    headers: Seq<HeaderView>,
    request: Option<JsonTree>,
    nanos: u128,
) -> Seq<char> {
    match given_name(headers, request) {
        Some(name) => name,
        None => made_up_name(nanos),
    }
}

/// The name of a request that names itself nothing, at the time `nanos`.
pub fn generated_request_id_at(nanos: u128) -> (r: String)
    ensures
        r@ == made_up_name(nanos),
{
    text::concat2("obp-", numeral::to_hex(nanos).as_str())
}

/// A name for a request that names itself nothing.
pub fn generated_request_id() -> (r: String)
    ensures
        exists|nanos: u128| r@ == #[trigger] made_up_name(nanos),
{
    let nanos: u128 = clock::unix_now_nanos();
    generated_request_id_at(nanos)
}

/// The name of a request: its own, or one made up of the time `nanos`.
pub fn request_id_at(headers: &Vec<Header>, request_json: Option<&Json>, nanos: u128) -> (r: String)
    ensures
        r@ == name_of(header_views(headers@), json::maybe_tree_ref(request_json), nanos),
{
    let keys: Vec<&str> = vec!["obp_request_id", "x_obp_request_id", "request_id"];
    assert(text::strs(keys@) =~= seq!["obp_request_id"@, "x_obp_request_id"@, "request_id"@]);
    let names: Vec<String> = vec![
        header_value(headers, "x-obp-request-id"),
        header_value(headers, "x-request-id"),
        json_hint_preserve(request_json, &keys),
    ];
    assert(text::texts(names@) =~= seq![names@[0]@, names@[1]@, names@[2]@]);
    match sanitize_trace_id(first_non_empty_preserve(&names).as_str()) {
        Some(name) => name,
        None => generated_request_id_at(nanos),
    }
}

/// The name of a request: its own, or one made up of the time.
pub fn request_id(headers: &Vec<Header>, request_json: Option<&Json>) -> (r: String)
    ensures
        exists|nanos: u128|
            r@ == #[trigger] name_of(
                header_views(headers@),
                json::maybe_tree_ref(request_json),
                nanos,
            ),
{
    let nanos: u128 = clock::unix_now_nanos();
    request_id_at(headers, request_json, nanos)
}

/// Every character of `s` may stand in a name.
pub open spec fn all_name_chars(s: Seq<char>) -> bool {
    forall|i: int| 0 <= i < s.len() ==> name_char(#[trigger] s[i])
}

proof fn lemma_name_chars(s: Seq<char>)
    ensures
        all_name_chars(name_chars(s)),
        name_chars(s).len() <= s.len(),
        all_name_chars(s) ==> name_chars(s) == s,
    decreases s.len(),
{
    if s.len() > 0 {
        lemma_name_chars(s.drop_last());
        if all_name_chars(s) {
            assert(name_char(s[s.len() - 1]));
            assert forall|i: int| 0 <= i < s.drop_last().len() implies name_char(
                #[trigger] s.drop_last()[i],
            ) by {
                assert(name_char(s[i]));
            }
            assert(s.drop_last().push(s.last()) =~= s);
        }
    }
}

/// A bare name is made of the characters of `s`, has no hyphen at its ends, and
/// is its own bare name.
proof fn lemma_bare_name(s: Seq<char>)
    requires
        all_name_chars(s),
    ensures
        all_name_chars(bare_name(s)),
        bare_name(s).len() <= s.len(),
        bare_name(s).len() > 0 ==> bare_name(s)[0] != '-' && bare_name(s).last() != '-',
        bare_name(bare_name(s)) == bare_name(s),
{
    let head = text::without_trailing(s, '-');
    let name = text::without_leading(head, '-');
    text::lemma_without_trailing(s, '-');
    text::lemma_without_leading(head, '-');
    assert forall|i: int| 0 <= i < name.len() implies name_char(#[trigger] name[i]) by {
        assert(name[i] == s[i + head.len() - name.len()]);
    }
    if name.len() > 0 {
        assert(name_char(name[0]) && name_char(name[name.len() - 1]));
        assert(name.last() == head.last());
    }
    assert(text::trimmed(name) == name);
    assert(text::without_trailing(name, '-') == name);
    assert(text::without_leading(name, '-') == name);
}

/// The name of a request has from one to ninety-six characters, all of which may
/// stand in a name, and no hyphen at either end; and it is the name that it
/// gives itself.
pub proof fn law_trace_name(s: Seq<char>)
    ensures
        trace_name(s) matches Some(name) ==> {
            &&& 1 <= name.len() <= 96
            &&& all_name_chars(name)
            &&& name[0] != '-'
            &&& name.last() != '-'
            &&& trace_name(name) == Some(name)
        },
{
    let short = text::shortened(name_chars(s), 96);
    let name = bare_name(short);
    lemma_name_chars(s);
    lemma_bare_name(short);
    lemma_name_chars(name);
}

/// The name of a source has from one to eighty characters, all of which may
/// stand in a name.
pub proof fn law_source_name(source: Seq<char>)
    ensures
        1 <= source_name(source).len() <= 80,
        all_name_chars(source_name(source)),
{
    lemma_bare_name(hyphenated(source));
    reveal_strlit("unknown-source");
}

/// The source of a request is always a name.
pub proof fn law_source_of(headers: Seq<HeaderView>, request: Option<JsonTree>)
    ensures
        1 <= source_of(headers, request).len() <= 80,
        all_name_chars(source_of(headers, request)),
{
    law_source_name(
        first_filled(
            seq![
                plain_or_empty(header_text(headers, "x-obp-source"@), true),
                plain_or_empty(header_text(headers, "x-nanobot-source"@), true),
                request_hint(request, seq!["obp_source"@, "x_obp_source"@, "source"@], true),
            ],
            true,
        ),
    );
}

/// A header is found by its name, whatever its case: the first with that name counts, and
/// there is none where no header has it.
pub proof fn law_header_text(headers: Seq<HeaderView>, name: Seq<char>, i: int)
    ensures
        0 <= i < headers.len() && text::ascii_lowered(headers[i].name) == text::ascii_lowered(name)
            && (forall|j: int|
            0 <= j < i ==> text::ascii_lowered((#[trigger] headers[j]).name)
                != text::ascii_lowered(name)) ==> header_text(headers, name) == headers[i].value,
        (forall|j: int|
            0 <= j < headers.len() ==> text::ascii_lowered((#[trigger] headers[j]).name)
                != text::ascii_lowered(name)) ==> header_text(headers, name) is None,
    decreases headers.len(),
{
    if headers.len() > 0 {
        let rest = headers.skip(1);
        law_header_text(rest, name, i - 1);
        if 0 < i < headers.len() {
            assert(rest[i - 1] == headers[i]);
        }
        if i < headers.len() && forall|j: int|
            0 <= j < i ==> text::ascii_lowered((#[trigger] headers[j]).name)
                != text::ascii_lowered(name) {
            assert forall|j: int| 0 <= j < i - 1 implies text::ascii_lowered(
                (#[trigger] rest[j]).name,
            ) != text::ascii_lowered(name) by {
                assert(rest[j] == headers[j + 1]);
            }
        }
        if forall|j: int|
            0 <= j < headers.len() ==> text::ascii_lowered((#[trigger] headers[j]).name)
                != text::ascii_lowered(name) {
            assert forall|j: int| 0 <= j < rest.len() implies text::ascii_lowered(
                (#[trigger] rest[j]).name,
            ) != text::ascii_lowered(name) by {
                assert(rest[j] == headers[j + 1]);
            }
        }
    }
}

/// What may be there has none of the three members.
pub open spec fn quiet(
    tree: Option<JsonTree>,
    first: Seq<char>,
    second: Seq<char>,
    third: Seq<char>,
) -> bool {
    tree is Some ==> tree->0.get(first) is None && tree->0.get(second) is None && tree->0.get(
        third,
    ) is None
}

/// What may be there says `told` under the first of three keys, or under the second without
/// the first, or under the third without both.
pub open spec fn tells(
    tree: Option<JsonTree>,
    first: Seq<char>,
    second: Seq<char>,
    third: Seq<char>,
    told: Seq<char>,
) -> bool {
    &&& tree is Some
    &&& {
        ||| tree->0.get(first) == Some(JsonTree::Text(told))
        ||| tree->0.get(first) is None && tree->0.get(second) == Some(JsonTree::Text(told))
        ||| tree->0.get(first) is None && tree->0.get(second) is None && tree->0.get(third)
            == Some(JsonTree::Text(told))
    }
}

/// A request says something of itself under the given keys: itself, or else in its member
/// `metadata`, or else in `extra_body`, or else in `obp`.
pub open spec fn request_tells(
    request: Option<JsonTree>,
    first: Seq<char>,
    second: Seq<char>,
    third: Seq<char>,
    told: Seq<char>,
) -> bool {
    &&& request is Some
    &&& {
        let metadata = request->0.get("metadata"@);
        let extra = request->0.get("extra_body"@);
        let own = request->0.get("obp"@);
        ||| tells(request, first, second, third, told)
        ||| quiet(request, first, second, third) && tells(metadata, first, second, third, told)
        ||| quiet(request, first, second, third) && quiet(metadata, first, second, third) && tells(
            extra,
            first,
            second,
            third,
            told,
        )
        ||| quiet(request, first, second, third) && quiet(metadata, first, second, third) && quiet(
            extra,
            first,
            second,
            third,
        ) && tells(own, first, second, third, told)
    }
}

/// A request says nothing of itself under the given keys.
pub open spec fn request_quiet(
    request: Option<JsonTree>,
    first: Seq<char>,
    second: Seq<char>,
    third: Seq<char>,
) -> bool {
    request is Some ==> {
        &&& quiet(request, first, second, third)
        &&& quiet(request->0.get("metadata"@), first, second, third)
        &&& quiet(request->0.get("extra_body"@), first, second, third)
        &&& quiet(request->0.get("obp"@), first, second, third)
    }
}

proof fn lemma_direct_hint(
    tree: JsonTree,
    first: Seq<char>,
    second: Seq<char>,
    third: Seq<char>,
    told: Seq<char>,
    lower: bool,
)
    ensures
        quiet(Some(tree), first, second, third) ==> direct_hint(
            tree,
            seq![first, second, third],
            lower,
        ) is None,
        tells(Some(tree), first, second, third, told) && plain(told, lower).len() > 0
            ==> direct_hint(tree, seq![first, second, third], lower) == Some(plain(told, lower)),
{
    let keys = seq![first, second, third];
    assert(keys.skip(1)[0] == second);
    assert(keys.skip(1).skip(1)[0] == third);
    assert(keys.skip(1).skip(1).skip(1) =~= Seq::<Seq<char>>::empty());
    reveal_with_fuel(direct_hint, 4);
}

/// A request says of itself what stands under the first of the keys that it has, at the
/// first place that has one: the request itself, its `metadata`, its `extra_body` or its
/// `obp`.
pub proof fn law_request_hint(
    request: Option<JsonTree>,
    first: Seq<char>,
    second: Seq<char>,
    third: Seq<char>,
    told: Seq<char>,
    lower: bool,
)
    ensures
        request_tells(request, first, second, third, told) && plain(told, lower).len() > 0
            ==> request_hint(request, seq![first, second, third], lower) == plain(told, lower),
        request_quiet(request, first, second, third) ==> request_hint(
            request,
            seq![first, second, third],
            lower,
        ).len() == 0,
{
    if request is Some {
        let tree = request->0;
        let places = hint_places(tree);
        lemma_direct_hint(tree, first, second, third, told, lower);
        if tree.get("metadata"@) is Some {
            lemma_direct_hint(tree.get("metadata"@)->0, first, second, third, told, lower);
        }
        if tree.get("extra_body"@) is Some {
            lemma_direct_hint(tree.get("extra_body"@)->0, first, second, third, told, lower);
        }
        if tree.get("obp"@) is Some {
            lemma_direct_hint(tree.get("obp"@)->0, first, second, third, told, lower);
        }
        assert(places.skip(1)[0] == places[1]);
        assert(places.skip(1).skip(1)[0] == places[2]);
        assert(places.skip(1).skip(1).skip(1)[0] == places[3]);
        assert(places.skip(1).skip(1).skip(1).skip(1) =~= Seq::<Option<JsonTree>>::empty());
        reveal_with_fuel(placed_hint, 5);
    }
}

proof fn lemma_first_of_two(a: Seq<char>, b: Seq<char>, lower: bool)
    ensures
        first_filled(seq![a, b], lower) == (if !text::blank(a) {
            plain(a, lower)
        } else if !text::blank(b) {
            plain(b, lower)
        } else {
            Seq::<char>::empty()
        }),
{
    assert(seq![a, b].skip(1)[0] == b);
    assert(seq![a, b].skip(1).skip(1) =~= Seq::<Seq<char>>::empty());
    reveal_with_fuel(first_filled, 3);
}

proof fn lemma_first_of_three(a: Seq<char>, b: Seq<char>, c: Seq<char>, lower: bool)
    ensures
        first_filled(seq![a, b, c], lower) == (if !text::blank(a) {
            plain(a, lower)
        } else if !text::blank(b) {
            plain(b, lower)
        } else if !text::blank(c) {
            plain(c, lower)
        } else {
            Seq::<char>::empty()
        }),
{
    assert(seq![a, b, c].skip(1)[0] == b);
    assert(seq![a, b, c].skip(1).skip(1)[0] == c);
    assert(seq![a, b, c].skip(1).skip(1).skip(1) =~= Seq::<Seq<char>>::empty());
    reveal_with_fuel(first_filled, 4);
}

proof fn lemma_blank_of_empty(s: Seq<char>)
    ensures
        s.len() == 0 ==> text::blank(s),
{
    text::law_trimmed(s);
}

/// The purpose and the intent of a request are those that its headers give, and otherwise
/// those of its body, in lower case and without white space around them; nothing where
/// neither says anything.
pub proof fn law_hints(
    headers: Seq<HeaderView>,
    request: Option<JsonTree>,
    told: Seq<char>,
)
    ensures
        ({
            let hints = hints_of(headers, request);
            let said = text::lowercase(text::trimmed(told));
            let purpose = header_text(headers, "x-obp-purpose"@);
            let intent = header_text(headers, "x-obp-intent"@);
            &&& purpose == Some(told) && !text::blank(said) ==> hints.purpose == text::lowercase(
                text::trimmed(said),
            )
            &&& intent == Some(told) && !text::blank(said) ==> hints.intent == text::lowercase(
                text::trimmed(said),
            )
            &&& purpose is None && request_tells(
                request,
                "obp_purpose"@,
                "x_obp_purpose"@,
                "purpose"@,
                told,
            ) && !text::blank(said) ==> hints.purpose == text::lowercase(text::trimmed(said))
            &&& intent is None && request_tells(
                request,
                "obp_intent"@,
                "x_obp_intent"@,
                "intent"@,
                told,
            ) && !text::blank(said) ==> hints.intent == text::lowercase(text::trimmed(said))
            &&& purpose is None && request_quiet(
                request,
                "obp_purpose"@,
                "x_obp_purpose"@,
                "purpose"@,
            ) ==> hints.purpose.len() == 0
            &&& intent is None && request_quiet(
                request,
                "obp_intent"@,
                "x_obp_intent"@,
                "intent"@,
            ) ==> hints.intent.len() == 0
        }),
{
    let said = text::lowercase(text::trimmed(told));
    lemma_blank_of_empty(said);
    lemma_blank_of_empty(Seq::<char>::empty());
    law_request_hint(request, "obp_purpose"@, "x_obp_purpose"@, "purpose"@, told, true);
    law_request_hint(request, "obp_intent"@, "x_obp_intent"@, "intent"@, told, true);
    let purpose = request_hint(request, seq!["obp_purpose"@, "x_obp_purpose"@, "purpose"@], true);
    let intent = request_hint(request, seq!["obp_intent"@, "x_obp_intent"@, "intent"@], true);
    lemma_blank_of_empty(purpose);
    lemma_blank_of_empty(intent);
    lemma_first_of_two(
        plain_or_empty(header_text(headers, "x-obp-purpose"@), true),
        purpose,
        true,
    );
    lemma_first_of_two(
        plain_or_empty(header_text(headers, "x-obp-intent"@), true),
        intent,
        true,
    );
}

/// The source of a request is the one in its own header, or else in the header of nanobot,
/// or else in its body, in lower case; it is named as unknown where none is given.
pub proof fn law_given_source(
    headers: Seq<HeaderView>,
    request: Option<JsonTree>,
    told: Seq<char>,
)
    ensures
        ({
            let out = source_of(headers, request);
            let said = text::lowercase(text::trimmed(told));
            let name = source_name(text::lowercase(text::trimmed(said)));
            let own = header_text(headers, "x-obp-source"@);
            let other = header_text(headers, "x-nanobot-source"@);
            &&& own == Some(told) && !text::blank(said) ==> out == name
            &&& own is None && other == Some(told) && !text::blank(said) ==> out == name
            &&& own is None && other is None && request_tells(
                request,
                "obp_source"@,
                "x_obp_source"@,
                "source"@,
                told,
            ) && !text::blank(said) ==> out == name
            &&& own is None && other is None && request_quiet(
                request,
                "obp_source"@,
                "x_obp_source"@,
                "source"@,
            ) ==> out == "unknown-source"@
        }),
{
    let said = text::lowercase(text::trimmed(told));
    lemma_blank_of_empty(said);
    lemma_blank_of_empty(Seq::<char>::empty());
    law_request_hint(request, "obp_source"@, "x_obp_source"@, "source"@, told, true);
    let body = request_hint(request, seq!["obp_source"@, "x_obp_source"@, "source"@], true);
    lemma_blank_of_empty(body);
    lemma_first_of_three(
        plain_or_empty(header_text(headers, "x-obp-source"@), true),
        plain_or_empty(header_text(headers, "x-nanobot-source"@), true),
        body,
        true,
    );
    let none = Seq::<char>::empty();
    assert(hyphenated(none) =~= none);
    reveal_with_fuel(text::without_trailing, 2);
    reveal_with_fuel(text::without_leading, 2);
}

/// The name of a request is the one in its own header, or else in the usual one, or else in
/// its body; where none is given it is made of the time.
pub proof fn law_given_name(
    headers: Seq<HeaderView>,
    request: Option<JsonTree>,
    told: Seq<char>,
    nanos: u128,
)
    ensures
        ({
            let out = given_name(headers, request);
            let said = text::trimmed(told);
            let own = header_text(headers, "x-obp-request-id"@);
            let usual = header_text(headers, "x-request-id"@);
            let quiet = own is None && usual is None && request_quiet(
                request,
                "obp_request_id"@,
                "x_obp_request_id"@,
                "request_id"@,
            );
            &&& own == Some(told) && said.len() > 0 ==> out == trace_name(said)
            &&& own is None && usual == Some(told) && said.len() > 0 ==> out == trace_name(said)
            &&& own is None && usual is None && request_tells(
                request,
                "obp_request_id"@,
                "x_obp_request_id"@,
                "request_id"@,
                told,
            ) && said.len() > 0 ==> out == trace_name(said)
            &&& out is Some ==> name_of(headers, request, nanos) == out->0
            &&& quiet ==> name_of(headers, request, nanos) == "obp-"@ + numeral::numeral(
                nanos as int,
                16,
            )
        }),
{
    let said = text::trimmed(told);
    text::lemma_trimmed_twice(told);
    lemma_blank_of_empty(Seq::<char>::empty());
    law_request_hint(
        request,
        "obp_request_id"@,
        "x_obp_request_id"@,
        "request_id"@,
        told,
        false,
    );
    let body = request_hint(
        request,
        seq!["obp_request_id"@, "x_obp_request_id"@, "request_id"@],
        false,
    );
    lemma_blank_of_empty(body);
    lemma_first_of_three(
        plain_or_empty(header_text(headers, "x-obp-request-id"@), false),
        plain_or_empty(header_text(headers, "x-request-id"@), false),
        body,
        false,
    );
    let none = Seq::<char>::empty();
    assert(name_chars(none) =~= none);
    assert(text::shortened(none, 96) =~= none);
    reveal_with_fuel(text::without_trailing, 2);
    reveal_with_fuel(text::without_leading, 2);
}

/// In the name of a request letters, digits and four marks stay, in their order, and
/// everything else is left out; in that of a source a hyphen stands for each of the others.
pub proof fn law_name_chars(s: Seq<char>, c: char, i: int)
    ensures
        ({
            let kept = 'a' <= c <= 'z' || 'A' <= c <= 'Z' || '0' <= c <= '9' || c == '-' || c
                == '_' || c == '.' || c == ':';
            &&& kept ==> name_chars(s.push(c)) == name_chars(s).push(c)
            &&& !kept ==> name_chars(s.push(c)) == name_chars(s)
            &&& hyphenated(s).len() == s.len()
            &&& 0 <= i < s.len() && s[i] == c && kept ==> hyphenated(s)[i] == c
            &&& 0 <= i < s.len() && s[i] == c && !kept ==> hyphenated(s)[i] == '-'
        }),
{
    assert(s.push(c).drop_last() =~= s);
}

/// A text that may be a name is the name that it gives: one of letters and digits, without a
/// hyphen at its ends, of no more than ninety-six characters for a request, and of the first
/// eighty for a source.
pub proof fn law_names_are_kept(s: Seq<char>)
    requires
        all_name_chars(s),
        s.len() > 0,
        s[0] != '-',
        s.last() != '-',
    ensures
        s.len() <= 96 ==> trace_name(s) == Some(s),
        source_name(s) == (if s.len() <= 80 {
            s
        } else {
            s.take(80)
        }),
{
    lemma_name_chars(s);
    assert(hyphenated(s) =~= s);
    assert(text::without_trailing(s, '-') == s);
    assert(text::without_leading(s, '-') == s);
    assert(name_char(s[0]) && name_char(s[s.len() - 1]));
    assert(text::trimmed(s) == s);
}

/// Hyphens at the ends of a name are left out.
pub proof fn law_hyphens_are_left_out(s: Seq<char>)
    requires
        all_name_chars(s),
        0 < s.len() <= 80,
        s[0] != '-',
        s.last() != '-',
    ensures
        trace_name(seq!['-'] + s) == Some(s),
        trace_name(s.push('-')) == Some(s),
        source_name(seq!['-'] + s) == s,
        source_name(s.push('-')) == s,
{
    let front = seq!['-'] + s;
    let back = s.push('-');
    law_names_are_kept(s);
    assert forall|i: int| 0 <= i < front.len() implies name_char(#[trigger] front[i]) by {
        if i > 0 {
            assert(front[i] == s[i - 1]);
        }
    }
    assert forall|i: int| 0 <= i < back.len() implies name_char(#[trigger] back[i]) by {
        if i < s.len() {
            assert(back[i] == s[i]);
        }
    }
    lemma_name_chars(s);
    lemma_name_chars(front);
    lemma_name_chars(back);
    assert(hyphenated(front) =~= front);
    assert(hyphenated(back) =~= back);
    text::law_taken_off_ends(s, '-');
    text::law_taken_off_ends(front, '-');
    assert(front.last() == s.last());
    assert(name_char(s[0]) && name_char(s[s.len() - 1]));
    assert(text::trimmed(s) == s);
}

/// Of several values the first that is not blank counts, without white space around it and in
/// lower case where that is asked for; nothing where all are blank.
pub proof fn law_first_filled(value: Seq<char>, rest: Seq<Seq<char>>)
    ensures
        !text::blank(value) ==> first_filled(seq![value] + rest, true) == text::lowercase(
            text::trimmed(value),
        ),
        !text::blank(value) ==> first_filled(seq![value] + rest, false) == text::trimmed(value),
        text::blank(value) ==> first_filled(seq![value] + rest, true) == first_filled(rest, true),
        text::blank(value) ==> first_filled(seq![value] + rest, false) == first_filled(rest, false),
        first_filled(Seq::<Seq<char>>::empty(), true).len() == 0,
        first_filled(Seq::<Seq<char>>::empty(), false).len() == 0,
{
    assert((seq![value] + rest).skip(1) =~= rest);
}

/// Of several keys the first counts at which a text stands that leaves anything without white
/// space around it; the text is that, in lower case where that is asked for.
pub proof fn law_direct_hint(
    tree: JsonTree,
    key: Seq<char>,
    rest: Seq<Seq<char>>,
    told: Seq<char>,
)
    ensures
        ({
            let keys = seq![key] + rest;
            let given = tree.get(key) == Some(JsonTree::Text(told));
            &&& given && !text::blank(told) ==> direct_hint(tree, keys, false) == Some(
                text::trimmed(told),
            )
            &&& given && text::lowercase(text::trimmed(told)).len() > 0 ==> direct_hint(
                tree,
                keys,
                true,
            ) == Some(text::lowercase(text::trimmed(told)))
            &&& given && text::blank(told) ==> direct_hint(tree, keys, false) == direct_hint(
                tree,
                rest,
                false,
            )
            &&& !(tree.get(key) matches Some(JsonTree::Text(_))) ==> direct_hint(tree, keys, true)
                == direct_hint(tree, rest, true) && direct_hint(tree, keys, false) == direct_hint(
                tree,
                rest,
                false,
            )
        }),
        direct_hint(tree, Seq::<Seq<char>>::empty(), true) is None,
        direct_hint(tree, Seq::<Seq<char>>::empty(), false) is None,
{
    assert((seq![key] + rest).skip(1) =~= rest);
}

} // verus!
