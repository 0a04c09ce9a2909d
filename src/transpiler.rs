use vstd::prelude::*;
use crate::content::{
    ensure_success_response, header_content_type, lower_of, lowercase, opt_schema, opt_text,
    raw_content, raw_content_spec, text_eq,
};
use crate::json::json_parse_of;
use crate::schema::infer_spec;
use crate::ids::{id_base, count_after, count_get, decimal, decimal_exec, issued_id, operation_id, OperationIds};
use crate::json::{Json, JsonV};
use crate::model::{
    Body, BodyMode, Collection, Item, MediaExample, MediaType, OpenApi, Operation, PathItem,
    Request, RequestBody, Response, ResponseExample, Server, Tag, UrlEncodedParam, Variable,
};
use crate::resolve::{resolve_mode_spec, resolve_spec, ReplaceMode};
use crate::schema::generate_schema;
use crate::params::{is_path_param, segment_names, segments_view};
use crate::model::Parameter;
use crate::text::{append_chars, chars_of, join, join_exec, string_of, texts};
use crate::vars::{VariableTable, VAR_REPLACE_CREDITS};

verus! {

/// Turns a collection into a specification document, with the collection's variables.
pub struct Transpiler {
    pub variable_map: VariableTable,
}

/// The table that a collection's variables give: each one with a key and a value that is
/// not the empty string, in order.
pub open spec fn var_entries(vs: Seq<Variable>) -> Seq<(Seq<char>, JsonV)>
    decreases vs.len(),
{
    if vs.len() == 0 {
        Seq::empty()
    } else {
        let rest = var_entries(vs.drop_last());
        let v = vs.last();
        match (v.key, v.value) {
            (Some(k), Some(j)) => if j@ == JsonV::Str(Seq::empty()) {
                rest
            } else {
                rest.push((k@, j@))
            },
            _ => rest,
        }
    }
}

/// The tags (name and description) of the folders of `items`, depth first, in the order
/// they are met.
pub open spec fn folder_tags(items: Seq<Item>) -> Seq<(Seq<char>, Option<Seq<char>>)>
    decreases items,
{
    if items.len() == 0 {
        Seq::empty()
    } else {
        folder_tags(items.drop_last()) + item_tags(items.last())
    }
}

/// The tags of the folders of one item: itself, where it is a folder, then those inside.
pub open spec fn item_tags(item: Item) -> Seq<(Seq<char>, Option<Seq<char>>)>
    decreases item,
{
    match item.children {
        Some(c) => seq![(folder_name(item.name), opt_text(item.description))] + folder_tags(c@),
        None => Seq::empty(),
    }
}

/// The name of a folder: its own, or `<folder>`.
pub open spec fn folder_name(n: Option<String>) -> Seq<char> {
    match n {
        Some(s) => s@,
        None => seq!['<', 'f', 'o', 'l', 'd', 'e', 'r', '>'],
    }
}

/// The tags of a document, as name and description.
pub open spec fn tag_names(tags: Seq<Tag>) -> Seq<(Seq<char>, Option<Seq<char>>)> {
    Seq::new(tags.len(), |i: int| (tags[i].name@, opt_text(tags[i].description)))
}

/// The server a request leaf registers, resolved.
pub open spec fn leaf_server(t: Seq<(Seq<char>, JsonV)>, item: Item) -> Option<Seq<char>> {
    match item.request {
        Some(req) => match req.url {
            Some(u) => match u.host {
                Some(h) => Some(resolve_spec(t, server_url_spec(u.protocol, h@), 20)),
                None => None,
            },
            None => None,
        },
        None => None,
    }
}

/// The path template a request leaf registers.
pub open spec fn leaf_path(t: Seq<(Seq<char>, JsonV)>, item: Item) -> Option<Seq<char>> {
    match item.request {
        Some(req) => match req.url {
            Some(u) => match u.path {
                Some(p) => Some(path_key(t, p@)),
                None => None,
            },
            None => None,
        },
        None => None,
    }
}

/// The id registry after a request leaf is met.
pub open spec fn leaf_ids(reg: Seq<(Seq<char>, nat)>, item: Item) -> Seq<(Seq<char>, nat)> {
    if registers_id(item) {
        reg.push((id_base(request_name(item)), count_after(reg, id_base(request_name(item)))))
    } else {
        reg
    }
}

/// A list of keys after `k` is added: unchanged where it holds `k`, else with `k` at its end.
pub open spec fn with_key(keys: Seq<Seq<char>>, k: Seq<char>) -> Seq<Seq<char>> {
    if keys.contains(k) {
        keys
    } else {
        keys.push(k)
    }
}

/// The server list after the items are walked, from `urls`.
pub open spec fn servers_after(t: Seq<(Seq<char>, JsonV)>, urls: Seq<Seq<char>>, items: Seq<Item>) -> Seq<Seq<char>>
    decreases items,
{
    if items.len() == 0 {
        urls
    } else {
        item_servers(t, servers_after(t, urls, items.drop_last()), items.last())
    }
}

/// The server list after one item is walked.
pub open spec fn item_servers(t: Seq<(Seq<char>, JsonV)>, urls: Seq<Seq<char>>, item: Item) -> Seq<Seq<char>>
    decreases item,
{
    match item.children {
        Some(c) => servers_after(t, urls, c@),
        None => match leaf_server(t, item) {
            Some(u) => with_server(urls, u),
            None => urls,
        },
    }
}

/// The path keys after the items are walked, from `keys`.
pub open spec fn paths_after(t: Seq<(Seq<char>, JsonV)>, keys: Seq<Seq<char>>, items: Seq<Item>) -> Seq<Seq<char>>
    decreases items,
{
    if items.len() == 0 {
        keys
    } else {
        item_paths(t, paths_after(t, keys, items.drop_last()), items.last())
    }
}

/// The path keys after one item is walked.
pub open spec fn item_paths(t: Seq<(Seq<char>, JsonV)>, keys: Seq<Seq<char>>, item: Item) -> Seq<Seq<char>>
    decreases item,
{
    match item.children {
        Some(c) => paths_after(t, keys, c@),
        None => match leaf_path(t, item) {
            Some(k) => with_key(keys, k),
            None => keys,
        },
    }
}

/// The id registry after the items are walked, from `reg`.
pub open spec fn ids_after(reg: Seq<(Seq<char>, nat)>, items: Seq<Item>) -> Seq<(Seq<char>, nat)>
    decreases items,
{
    if items.len() == 0 {
        reg
    } else {
        item_ids(ids_after(reg, items.drop_last()), items.last())
    }
}

/// The id registry after one item is walked.
pub open spec fn item_ids(reg: Seq<(Seq<char>, nat)>, item: Item) -> Seq<(Seq<char>, nat)>
    decreases item,
{
    match item.children {
        Some(c) => ids_after(reg, c@),
        None => leaf_ids(reg, item),
    }
}

/// The URLs of the servers of a document.
pub open spec fn server_urls(servers: Seq<Server>) -> Seq<Seq<char>> {
    Seq::new(servers.len(), |i: int| servers[i].url@)
}

/// The server list after `url` is registered: unchanged where it holds `url`, else with
/// `url` at its end.
pub open spec fn with_server(urls: Seq<Seq<char>>, url: Seq<char>) -> Seq<Seq<char>> {
    if urls.contains(url) {
        urls
    } else {
        urls.push(url)
    }
}

/// The server URL of a request: `protocol://` where there is a protocol, then the host
/// parts joined with `.`.
pub open spec fn server_url_spec(protocol: Option<String>, host: Seq<String>) -> Seq<char> {
    match protocol {
        Some(p) => p@ + seq![':', '/', '/'] + join(texts(host), '.'),
        None => join(texts(host), '.'),
    }
}

/// A path segment as it stands in a path template: resolved in path mode, and `:name`
/// written `{name}`.
pub open spec fn segment_template(t: Seq<(Seq<char>, JsonV)>, s: Seq<char>) -> Seq<char> {
    let r = resolve_mode_spec(t, s, 20, ReplaceMode::PathTemplate);
    if r.len() > 0 && r[0] == ':' {
        seq!['{'] + r.drop_first() + seq!['}']
    } else {
        r
    }
}

/// The path template of a request: `/` followed by its segments joined with `/`.
pub open spec fn path_key(t: Seq<(Seq<char>, JsonV)>, segs: Seq<String>) -> Seq<char> {
    seq!['/'] + join(templates(t, segs), '/')
}

/// The segments of a request path as they stand in its path template.
pub open spec fn templates(t: Seq<(Seq<char>, JsonV)>, segs: Seq<String>) -> Seq<Seq<char>> {
    Seq::new(segs.len(), |i: int| segment_template(t, segs[i]@))
}

/// Whether `ps` are the path parameters for the template names `names`, with the hints.
pub open spec fn path_params_ok(ps: Option<Vec<Parameter>>, names: Seq<Seq<char>>, hints: Option<Vec<Variable>>, t: Seq<(Seq<char>, JsonV)>) -> bool {
    match ps {
        None => names.len() == 0,
        Some(v) => names.len() > 0 && v@.len() == names.len() && forall|k: int| 0 <= k < v@.len() ==> #[trigger] is_path_param(v@[k], names[k], hints, t),
    }
}

/// The path parameters a request leaf gives its path item.
pub open spec fn leaf_params_ok(ps: Option<Vec<Parameter>>, t: Seq<(Seq<char>, JsonV)>, item: Item) -> bool {
    let u = item.request->Some_0.url->Some_0;
    path_params_ok(ps, segment_names(templates(t, u.path->Some_0@)), u.variable, t)
}

/// The keys of the paths of a document.
pub open spec fn path_keys(paths: Seq<(String, PathItem)>) -> Seq<Seq<char>> {
    Seq::new(paths.len(), |i: int| paths[i].0@)
}

/// `application/octet-stream`
pub open spec fn octet_type() -> Seq<char> {
    seq!['a', 'p', 'p', 'l', 'i', 'c', 'a', 't', 'i', 'o', 'n', '/', 'o', 'c', 't', 'e', 't', '-', 's', 't', 'r', 'e', 'a', 'm']
}

/// `application/form-urlencoded`
pub open spec fn form_type() -> Seq<char> {
    seq!['a', 'p', 'p', 'l', 'i', 'c', 'a', 't', 'i', 'o', 'n', '/', 'f', 'o', 'r', 'm', '-', 'u', 'r', 'l', 'e', 'n', 'c', 'o', 'd', 'e', 'd']
}

/// The media type of a request body: the one the headers declare; else, for a raw body,
/// the one its text shows, for a url-encoded one `application/form-urlencoded`, and
/// otherwise `application/octet-stream`.
pub open spec fn body_content_type(t: Seq<(Seq<char>, JsonV)>, body: Body, header: Option<Seq<char>>) -> Seq<char> {
    match header {
        Some(h) => h,
        None => match body.mode {
            Some(BodyMode::Raw) => match body.raw {
                Some(raw) => {
                    let text = resolve_spec(t, raw@, 20);
                    match raw_content_spec(text, json_parse_of(text)).0 {
                        Some(c) => c,
                        None => octet_type(),
                    }
                },
                None => octet_type(),
            },
            Some(BodyMode::Urlencoded) => form_type(),
            _ => octet_type(),
        },
    }
}

/// The operation under the slot of a method, given in lower case; `None` for a method
/// with no slot.
pub open spec fn slot_of(pi: PathItem, m: Seq<char>) -> Option<Operation> {
    if m == seq!['g', 'e', 't'] {
        pi.get
    } else if m == seq!['p', 'o', 's', 't'] {
        pi.post
    } else if m == seq!['p', 'u', 't'] {
        pi.put
    } else if m == seq!['d', 'e', 'l', 'e', 't', 'e'] {
        pi.delete
    } else if m == seq!['p', 'a', 't', 'c', 'h'] {
        pi.patch
    } else if m == seq!['o', 'p', 't', 'i', 'o', 'n', 's'] {
        pi.options
    } else if m == seq!['t', 'r', 'a', 'c', 'e'] {
        pi.trace
    } else {
        None
    }
}

/// Whether a method, in lower case, has a slot.
pub open spec fn has_slot(m: Seq<char>) -> bool {
    m == seq!['g', 'e', 't'] || m == seq!['p', 'o', 's', 't'] || m == seq!['p', 'u', 't'] || m == seq![
        'd',
        'e',
        'l',
        'e',
        't',
        'e',
    ] || m == seq!['p', 'a', 't', 'c', 'h'] || m == seq!['o', 'p', 't', 'i', 'o', 'n', 's'] || m == seq!['t', 'r', 'a', 'c', 'e']
}

/// Whether `op` is the operation of a request named `name`, with id `id`, tagged with
/// the folder stack `stack` where it is not empty.
pub open spec fn is_request_op(op: Operation, name: Seq<char>, id: Seq<char>, stack: Seq<String>, codes: Seq<Seq<char>>) -> bool {
    &&& crate::content::response_codes(op.responses@) == with_success(codes)
    &&& !has_success(codes) ==> (op.responses@.last().1.description matches Some(d) && d@.len() == 0)
    &&& op.operation_id matches Some(x) && x@ == id
    &&& op.summary matches Some(x) && x@ == name
    &&& if stack.len() > 0 {
        op.tags matches Some(tg) && tg@ == stack
    } else {
        op.tags is None
    }
    &&& exists|k: int| 0 <= k < op.responses@.len() && crate::content::is_success_code(#[trigger] op.responses@[k].0@)
}

/// The description of a request's operation: its own, or the request's name.
pub open spec fn request_desc(item: Item) -> Seq<char> {
    match item.request->Some_0.description {
        Some(d) => d@,
        None => request_name(item),
    }
}

/// The media type that a request's headers declare.
pub open spec fn header_type(req: Request) -> Option<Seq<char>> {
    match req.header {
        Some(hs) => match crate::content::content_type_header(hs@) {
            Some(h) => Some(crate::content::before_semicolon(h.value@)),
            None => None,
        },
        None => None,
    }
}

/// The media type of a request's body, where it has one.
pub open spec fn request_body_type(t: Seq<(Seq<char>, JsonV)>, item: Item) -> Option<Seq<char>> {
    match item.request->Some_0.body {
        Some(b) => Some(body_content_type(t, b, header_type(item.request->Some_0))),
        None => None,
    }
}

/// Whether `op` has the description and request body that `item` gives.
pub open spec fn has_request_parts(op: Operation, t: Seq<(Seq<char>, JsonV)>, item: Item) -> bool {
    &&& op.description matches Some(d) && d@ == request_desc(item)
    &&& match request_body_type(t, item) {
        Some(ct) => op.request_body matches Some(rb) && rb.content@.len() == 1 && rb.content@[0].0@ == ct,
        None => op.request_body is None,
    }
}

/// Whether a list of status codes holds a success code.
pub open spec fn has_success(codes: Seq<Seq<char>>) -> bool {
    exists|k: int| 0 <= k < codes.len() && crate::content::is_success_code(#[trigger] codes[k])
}

/// The status codes of an operation: those of its examples, with `200` added where none
/// is a success.
pub open spec fn with_success(codes: Seq<Seq<char>>) -> Seq<Seq<char>> {
    if has_success(codes) {
        codes
    } else {
        codes.push(seq!['2', '0', '0'])
    }
}

/// The status codes of the example responses that carry one, each kept once where it is
/// first met.
pub open spec fn example_codes(exs: Seq<Option<ResponseExample>>) -> Seq<Seq<char>>
    decreases exs.len(),
{
    if exs.len() == 0 {
        Seq::empty()
    } else {
        let rest = example_codes(exs.drop_last());
        match exs.last() {
            Some(r) => match r.code {
                Some(c) => with_key(rest, code_text(c)),
                None => rest,
            },
            None => rest,
        }
    }
}

/// The status codes of the example responses of an item.
pub open spec fn item_codes(item: Item) -> Seq<Seq<char>> {
    match item.response {
        Some(r) => example_codes(r@),
        None => Seq::empty(),
    }
}

proof fn lemma_key_index_found<V>(e: Seq<(String, V)>, k: Seq<char>)
    ensures
        match key_index(e, k) {
            Some(j) => 0 <= j < e.len() && e[j].0@ == k,
            None => forall|j: int| 0 <= j < e.len() ==> #[trigger] e[j].0@ != k,
        },
    decreases e.len(),
{
    if e.len() > 0 {
        lemma_key_index_found(e.drop_first(), k);
        assert forall|j: int| 0 < j < e.len() implies #[trigger] e[j] == e.drop_first()[j - 1] by {}
    }
}

proof fn lemma_insert_codes(e: Seq<(String, Response)>, k: String, v: Response)
    ensures
        crate::content::response_codes(entries_insert(e, k, v)) == with_key(crate::content::response_codes(e), k@),
{
    lemma_key_index_found(e, k@);
    let c = crate::content::response_codes(e);
    match key_index(e, k@) {
        Some(j) => {
            assert(c[j] == k@);
            assert(crate::content::response_codes(entries_insert(e, k, v)) =~= c);
        },
        None => {
            assert(!c.contains(k@)) by {
                if c.contains(k@) {
                    let q = choose|q: int| 0 <= q < c.len() && c[q] == k@;
                    assert(e[q].0@ == k@);
                }
            }
            assert(crate::content::response_codes(entries_insert(e, k, v)) =~= c.push(k@));
        },
    }
}

/// A copy of a list of texts.
fn copy_texts(v: &Vec<String>) -> (r: Vec<String>)
    ensures
        r@ == v@,
{
    let mut out: Vec<String> = Vec::new();
    let mut i: usize = 0;
    while i < v.len()
        invariant
            i <= v.len(),
            out@ == v@.subrange(0, i as int),
        decreases v.len() - i,
    {
        out.push(v[i].clone());
        i = i + 1;
        assert(out@ =~= v@.subrange(0, i as int));
    }
    assert(v@.subrange(0, v.len() as int) =~= v@);
    out
}

/// The name of a request leaf: its own, or `<request>`.
pub open spec fn request_name(item: Item) -> Seq<char> {
    match item.name {
        Some(s) => s@,
        None => seq!['<', 'r', 'e', 'q', 'u', 'e', 's', 't', '>'],
    }
}

/// Whether a request leaf gets an operation id: it has a URL with a path, and a method.
pub open spec fn registers_id(item: Item) -> bool {
    match item.request {
        Some(req) => match req.url {
            Some(u) => u.path is Some && req.method is Some,
            None => false,
        },
        None => false,
    }
}

/// Whether two documents have the same version, title and description.
pub open spec fn same_info(a: OpenApi, b: OpenApi) -> bool {
    a.openapi == b.openapi && a.title == b.title && a.description == b.description && a.version == b.version
}

/// Whether a path item has no operation in any slot.
pub open spec fn slots_empty(pi: PathItem) -> bool {
    pi.get is None && pi.post is None && pi.put is None && pi.delete is None && pi.patch is None
        && pi.options is None && pi.trace is None
}

/// The operation that the path item under `k` had in the slot of `m`; `None` where there
/// was no such path item.
pub open spec fn old_slot(paths: Seq<(String, PathItem)>, k: Seq<char>, m: Seq<char>) -> Option<Operation> {
    match key_index(paths, k) {
        Some(j) => slot_of(paths[j].1, m),
        None => None,
    }
}

/// The slot that a request leaf fills: that of its method, in lower case, where it has a
/// URL with a path and its method has a slot.
pub open spec fn method_slot(item: Item) -> Option<Seq<char>> {
    if registers_id(item) && has_slot(lower_of(item.request->Some_0.method->Some_0@)) {
        Some(lower_of(item.request->Some_0.method->Some_0@))
    } else {
        None
    }
}

/// An empty path item.
fn empty_path_item() -> (r: PathItem)
    ensures
        slots_empty(r),
{
    PathItem {
        parameters: None,
        get: None,
        post: None,
        put: None,
        delete: None,
        patch: None,
        options: None,
        trace: None,
    }
}

/// Registers a server URL: kept once, where it is first met.
pub fn register_server(servers: &mut Vec<Server>, url: String)
    ensures
        server_urls(final(servers)@) == with_server(server_urls(old(servers)@), url@),
{
    let mut i: usize = 0;
    while i < servers.len()
        invariant
            i <= servers.len(),
            forall|k: int| 0 <= k < i ==> #[trigger] servers@[k].url@ != url@,
        decreases servers.len() - i,
    {
        if text_eq(servers[i].url.as_str(), url.as_str()) {
            assert(server_urls(servers@)[i as int] == url@);
            return;
        }
        i = i + 1;
    }
    let ghost before = servers@;
    assert(!server_urls(before).contains(url@)) by {
        if server_urls(before).contains(url@) {
            let k = choose|k: int| 0 <= k < server_urls(before).len() && server_urls(before)[k] == url@;
            assert(before[k].url@ == url@);
        }
    }
    servers.push(Server { url });
    assert(server_urls(servers@) =~= server_urls(before).push(url@));
}

/// The index of the path item under `key`, added empty where there is none.
pub fn path_index(paths: &mut Vec<(String, PathItem)>, key: &String) -> (r: usize)
    ensures
        r < final(paths)@.len(),
        final(paths)@[r as int].0@ == key@,
        match key_index(old(paths)@, key@) {
            Some(j) => r == j && final(paths)@ == old(paths)@,
            None => r == old(paths)@.len() && final(paths)@.len() == old(paths)@.len() + 1
                && final(paths)@.subrange(0, r as int) == old(paths)@ && slots_empty(final(paths)@[r as int].1),
        },
        path_keys(old(paths)@).contains(key@) ==> path_keys(final(paths)@) == path_keys(old(paths)@),
        !path_keys(old(paths)@).contains(key@) ==> path_keys(final(paths)@) == path_keys(old(paths)@).push(key@),
{
    let mut i: usize = 0;
    while i < paths.len()
        invariant
            i <= paths.len(),
            forall|k: int| 0 <= k < i ==> #[trigger] paths@[k].0@ != key@,
        decreases paths.len() - i,
    {
        if text_eq(paths[i].0.as_str(), key.as_str()) {
            assert(path_keys(paths@)[i as int] == key@);
            proof {
                lemma_key_index(paths@, key@, i as int);
            }
            return i;
        }
        i = i + 1;
    }
    let ghost before = paths@;
    assert(!path_keys(before).contains(key@)) by {
        if path_keys(before).contains(key@) {
            let k = choose|k: int| 0 <= k < path_keys(before).len() && path_keys(before)[k] == key@;
            assert(before[k].0@ == key@);
        }
    }
    proof {
        lemma_key_index(before, key@, i as int);
    }
    paths.push((key.clone(), empty_path_item()));
    assert(path_keys(paths@) =~= path_keys(before).push(key@));
    assert(paths@.subrange(0, i as int) =~= before);
    i
}

/// The fields of a url-encoded body as a JSON object: each key that has a value, with
/// its value as a string; a later entry of a key replaces the earlier one in place.
pub open spec fn form_entries(list: Seq<UrlEncodedParam>) -> Seq<(String, Json)>
    decreases list.len(),
{
    if list.len() == 0 {
        Seq::empty()
    } else {
        let rest = form_entries(list.drop_last());
        match list.last().value {
            Some(v) => entries_insert(rest, list.last().key, Json::Str(v)),
            None => rest,
        }
    }
}

/// The index of the first entry under `k`.
pub open spec fn key_index<V>(entries: Seq<(String, V)>, k: Seq<char>) -> Option<int>
    decreases entries.len(),
{
    if entries.len() == 0 {
        None
    } else if entries[0].0@ == k {
        Some(0)
    } else {
        match key_index(entries.drop_first(), k) {
            Some(i) => Some(i + 1),
            None => None,
        }
    }
}

/// The entries after `(k, v)` is set: in place of the first entry under `k`, else at the end.
pub open spec fn entries_insert<V>(entries: Seq<(String, V)>, k: String, v: V) -> Seq<(String, V)> {
    match key_index(entries, k@) {
        Some(i) => entries.update(i, (k, v)),
        None => entries.push((k, v)),
    }
}

proof fn lemma_key_index<V>(entries: Seq<(String, V)>, k: Seq<char>, i: int)
    requires
        0 <= i <= entries.len(),
        forall|j: int| 0 <= j < i ==> #[trigger] entries[j].0@ != k,
    ensures
        i < entries.len() && entries[i].0@ == k ==> key_index(entries, k) == Some(i),
        i == entries.len() ==> key_index(entries, k) is None,
    decreases i,
{
    if i > 0 {
        let d = entries.drop_first();
        assert forall|j: int| 0 <= j < i - 1 implies #[trigger] d[j].0@ != k by {
            assert(d[j] == entries[j + 1]);
        }
        lemma_key_index(d, k, i - 1);
        if i < entries.len() {
            assert(d[i - 1] == entries[i]);
        }
    } else if entries.len() > 0 {
        assert(entries[0].0@ == k ==> key_index(entries, k) == Some(0int));
    }
}

/// Sets the entry under `key`, in place where there is one, else at the end.
pub fn map_insert<V>(entries: &mut Vec<(String, V)>, key: String, value: V)
    ensures
        final(entries)@ == entries_insert(old(entries)@, key, value),
{
    let ghost before = entries@;
    let ghost kv = key@;
    let ghost pair = (key, value);
    let mut i: usize = 0;
    while i < entries.len()
        invariant
            i <= entries.len(),
            entries@ == before,
            before == old(entries)@,
            kv == key@,
            pair == (key, value),
            forall|k: int| 0 <= k < i ==> #[trigger] entries@[k].0@ != kv,
        decreases entries.len() - i,
    {
        if text_eq(entries[i].0.as_str(), key.as_str()) {
            proof {
                lemma_key_index(before, kv, i as int);
            }
            entries.set(i, (key, value));
            return;
        }
        i = i + 1;
    }
    proof {
        lemma_key_index(before, kv, i as int);
    }
    entries.push((key, value));
}

/// The text of a status code.
pub open spec fn code_text(c: i64) -> Seq<char> {
    if c < 0 {
        seq!['-'] + decimal((-c) as nat)
    } else {
        decimal(c as nat)
    }
}

/// The text of a status code.
pub fn code_text_exec(c: i64) -> (r: String)
    ensures
        r@ == code_text(c),
{
    if c < 0 {
        let m: u64 = (0i128 - c as i128) as u64;
        let d = decimal_exec(m);
        let mut out: Vec<char> = Vec::new();
        out.push('-');
        append_chars(&mut out, &d);
        assert(out@ =~= seq!['-'] + decimal((-c) as nat));
        string_of(&out)
    } else {
        string_of(&decimal_exec(c as u64))
    }
}

impl Transpiler {
    /// A transpiler over the given variables: each with a key and a value that is not the
    /// empty string enters the table; a later one hides an earlier one of the same key.
    pub fn new(variables: &Vec<Variable>) -> (r: Transpiler)
        ensures
            r.variable_map@ == var_entries(variables@),
    {
        let mut table = VariableTable::new();
        let mut i: usize = 0;
        while i < variables.len()
            invariant
                i <= variables.len(),
                table@ == var_entries(variables@.subrange(0, i as int)),
            decreases variables.len() - i,
        {
            let ghost sub = variables@.subrange(0, i + 1);
            assert(sub.drop_last() =~= variables@.subrange(0, i as int));
            assert(sub.last() == variables@[i as int]);
            let v = &variables[i];
            match (&v.key, &v.value) {
                (Some(k), Some(j)) => {
                    let empty = match j {
                        Json::Str(s) => chars_of(s.as_str()).len() == 0,
                        _ => false,
                    };
                    if !empty {
                        let ghost before = table@;
                        table.entries.push((k.clone(), j.deep_copy()));
                        assert(table@ =~= before.push((k@, j@)));
                    } else {
                        assert(j@ == JsonV::Str(Seq::empty())) by {
                            if let Json::Str(s) = j {
                                assert(s@ =~= Seq::<char>::empty());
                            }
                        }
                    }
                },
                _ => {},
            }
            i = i + 1;
        }
        assert(variables@.subrange(0, variables.len() as int) =~= variables@);
        Transpiler { variable_map: table }
    }

    /// Resolves `{{name}}` placeholders in `text` with the variables.
    pub fn resolve_variables(&self, text: &str, credits: usize) -> (r: String)
        ensures
            r@ == resolve_spec(self.variable_map@, text@, credits as nat),
    {
        self.variable_map.resolve_variables(text, credits)
    }

    /// Resolves `{{name}}` placeholders in `text`, then writes the text as `mode` says.
    pub fn resolve_variables_with_replace_fn(&self, text: &str, credits: usize, mode: ReplaceMode) -> (r: String)
        ensures
            r@ == resolve_mode_spec(self.variable_map@, text@, credits as nat, mode),
    {
        self.variable_map.resolve_variables_with_replace_fn(text, credits, mode)
    }

    /// The server URL of a request, resolved.
    pub fn server_url(&self, protocol: &Option<String>, host: &Vec<String>) -> (r: String)
        ensures
            r@ == resolve_spec(self.variable_map@, server_url_spec(*protocol, host@), 20),
    {
        let mut out: Vec<char> = Vec::new();
        match protocol {
            Some(p) => {
                let pc = chars_of(p.as_str());
                append_chars(&mut out, &pc);
                out.push(':');
                out.push('/');
                out.push('/');
            },
            None => {},
        }
        let h = join_exec(host, '.');
        append_chars(&mut out, &h);
        let url = string_of(&out);
        assert(url@ =~= server_url_spec(*protocol, host@));
        self.resolve_variables(url.as_str(), VAR_REPLACE_CREDITS)
    }

    /// The segments of a request path as they stand in its path template.
    pub fn resolve_segments(&self, segments: &Vec<String>) -> (r: Vec<String>)
        ensures
            r@.len() == segments@.len(),
            forall|k: int| 0 <= k < r@.len() ==> #[trigger] r@[k]@ == segment_template(self.variable_map@, segments@[k]@),
    {
        let mut out: Vec<String> = Vec::new();
        let mut i: usize = 0;
        while i < segments.len()
            invariant
                i <= segments.len(),
                out@.len() == i,
                forall|k: int| 0 <= k < i ==> #[trigger] out@[k]@ == segment_template(self.variable_map@, segments@[k]@),
            decreases segments.len() - i,
        {
            let seg = self.resolve_variables_with_replace_fn(segments[i].as_str(), VAR_REPLACE_CREDITS, ReplaceMode::PathTemplate);
            let c = chars_of(seg.as_str());
            let s = if c.len() > 0 && c[0] == ':' {
                let mut t: Vec<char> = Vec::new();
                t.push('{');
                let mut k: usize = 1;
                while k < c.len()
                    invariant
                        1 <= k <= c.len(),
                        t@ == seq!['{'] + c@.subrange(1, k as int),
                    decreases c.len() - k,
                {
                    t.push(c[k]);
                    k = k + 1;
                    assert(t@ =~= seq!['{'] + c@.subrange(1, k as int));
                }
                t.push('}');
                assert(c@.drop_first() =~= c@.subrange(1, c@.len() as int));
                assert(t@ =~= seq!['{'] + c@.drop_first() + seq!['}']);
                string_of(&t)
            } else {
                seg
            };
            out.push(s);
            i = i + 1;
        }
        out
    }

    /// The content of a request body, under the media type that the headers declare, or
    /// else the one that the body shows.
    pub fn build_request_body(&self, body: &Body, header_type: Option<String>) -> (r: RequestBody)
        ensures
            r.content@.len() == 1,
            r.content@[0].0@ == body_content_type(self.variable_map@, *body, opt_text(header_type)),
            body.mode == Some(BodyMode::Raw) && body.raw is Some ==> {
                let text = resolve_spec(self.variable_map@, body.raw->Some_0@, 20);
                let c = raw_content_spec(text, json_parse_of(text));
                &&& opt_schema(r.content@[0].1.schema) == c.1
                &&& r.content@[0].1.examples matches Some(MediaExample::Example(j)) && j@ == c.2
            },
            body.mode == Some(BodyMode::Urlencoded) && body.urlencoded is Some ==> {
                &&& r.content@[0].1.examples matches Some(MediaExample::Example(j))
                &&& j matches Json::Object(d) && d@ == form_entries(body.urlencoded->Some_0@)
                &&& opt_schema(r.content@[0].1.schema) == Some(infer_spec(j@))
            },
    {
        let mut content = MediaType { schema: None, examples: None };
        let mut body_type: Option<String> = None;
        match body.mode {
            Some(BodyMode::Raw) => {
                body_type = Some("application/octet-stream".to_owned());
                match &body.raw {
                    Some(raw) => {
                        let resolved = self.resolve_variables(raw.as_str(), VAR_REPLACE_CREDITS);
                        let (c, schema, example) = raw_content(resolved);
                        if c.is_some() {
                            body_type = c;
                        }
                        content.schema = schema;
                        content.examples = Some(MediaExample::Example(example));
                    },
                    None => {},
                }
            },
            Some(BodyMode::Urlencoded) => {
                body_type = Some("application/form-urlencoded".to_owned());
                match &body.urlencoded {
                    Some(list) => {
                        let mut data: Vec<(String, Json)> = Vec::new();
                        let mut i: usize = 0;
                        while i < list.len()
                            invariant
                                i <= list.len(),
                                data@ == form_entries(list@.subrange(0, i as int)),
                            decreases list.len() - i,
                        {
                            let ghost sub = list@.subrange(0, i + 1);
                            assert(sub.drop_last() =~= list@.subrange(0, i as int));
                            assert(sub.last() == list@[i as int]);
                            match &list[i].value {
                                Some(v) => {
                                    map_insert(&mut data, list[i].key.clone(), Json::Str(v.clone()));
                                },
                                None => {},
                            }
                            i = i + 1;
                        }
                        assert(list@.subrange(0, list.len() as int) =~= list@);
                        let obj = Json::Object(data);
                        content.schema = Some(generate_schema(&obj));
                        content.examples = Some(MediaExample::Example(obj));
                    },
                    None => {},
                }
            },
            Some(BodyMode::Other) => {
                body_type = Some("application/octet-stream".to_owned());
            },
            None => {},
        }
        proof {
            reveal_strlit("application/octet-stream");
            reveal_strlit("application/form-urlencoded");
        }
        let content_type = match header_type {
            Some(h) => h,
            None => match body_type {
                Some(b) => b,
                None => "application/octet-stream".to_owned(),
            },
        };
        proof {
            assert(("application/octet-stream")@ =~= octet_type());
            assert(("application/form-urlencoded")@ =~= form_type());
        }
        let mut entries: Vec<(String, MediaType)> = Vec::new();
        entries.push((content_type, content));
        RequestBody { content: entries }
    }

    /// One response of an operation, from an example response.
    pub fn build_response(&self, res: &ResponseExample) -> (r: Response)
        ensures
            r.description == res.name,
            r.content matches Some(c) && (match res.body {
                None => c@.len() == 0,
                Some(b) => {
                    let text = resolve_spec(self.variable_map@, b@, 20);
                    let k = raw_content_spec(text, json_parse_of(text));
                    &&& c@.len() == 1
                    &&& c@[0].0@ == (match k.0 {
                        Some(t) => t,
                        None => octet_type(),
                    })
                    &&& opt_schema(c@[0].1.schema) == k.1
                    &&& c@[0].1.examples matches Some(MediaExample::Examples(ex)) && ex@.len() == 1
                        && ex@[0].0@ == (match res.name {
                        Some(n) => n@,
                        None => Seq::empty(),
                    }) && ex@[0].1@ == k.2
                },
            }),
    {
        let description = crate::params::copy_text(&res.name);
        let mut media: Vec<(String, MediaType)> = Vec::new();
        match &res.body {
            Some(raw) => {
                let resolved = self.resolve_variables(raw.as_str(), VAR_REPLACE_CREDITS);
                let (c, schema, example) = raw_content(resolved);
                let example_name = match &res.name {
                    Some(n) => n.clone(),
                    None => String::new(),
                };
                let mut examples: Vec<(String, Json)> = Vec::new();
                examples.push((example_name, example));
                let content_type = match c {
                    Some(t) => t,
                    None => "application/octet-stream".to_owned(),
                };
                proof {
                    reveal_strlit("application/octet-stream");
                    assert(("application/octet-stream")@ =~= octet_type());
                }
                media.push((content_type, MediaType { schema, examples: Some(MediaExample::Examples(examples)) }));
            },
            None => {},
        }
        Response { description, content: Some(media) }
    }

    /// Adds what a request leaf gives to the document: its server, its path template with
    /// the path parameters, and an operation under the slot of its method, tagged with the
    /// enclosing folders.
    #[verifier::rlimit(80)]
    #[verifier::spinoff_prover]
    pub fn transform_request(&self, item: &Item, oas: &mut OpenApi, operation_ids: &mut OperationIds, hierarchy: &Vec<String>)
        ensures
            same_info(*old(oas), *final(oas)),
            final(oas).tags == old(oas).tags,
            server_urls(final(oas).servers@) == (match leaf_server(self.variable_map@, *item) {
                Some(u) => with_server(server_urls(old(oas).servers@), u),
                None => server_urls(old(oas).servers@),
            }),
            final(operation_ids)@ == leaf_ids(old(operation_ids)@, *item),
            registers_id(*item) ==> count_get(final(operation_ids)@, id_base(request_name(*item)))
                == Some(count_after(old(operation_ids)@, id_base(request_name(*item)))),
            forall|k: Seq<char>| !(registers_id(*item) && k == id_base(request_name(*item)))
                ==> #[trigger] count_get(final(operation_ids)@, k) == count_get(old(operation_ids)@, k),
            registers_id(*item) && has_slot(lower_of(item.request->Some_0.method->Some_0@)) ==> exists|i: int|
                0 <= i < final(oas).paths@.len() && #[trigger] final(oas).paths@[i].0@ == path_key(
                    self.variable_map@,
                    item.request->Some_0.url->Some_0.path->Some_0@,
                ) && (slot_of(final(oas).paths@[i].1, lower_of(item.request->Some_0.method->Some_0@)) matches Some(op)
                    && is_request_op(op, request_name(*item), issued_id(old(operation_ids)@, id_base(request_name(*item))), hierarchy@, item_codes(*item))
                    && has_request_parts(op, self.variable_map@, *item)),
            leaf_path(self.variable_map@, *item) matches Some(k) ==> exists|i: int|
                0 <= i < final(oas).paths@.len() && #[trigger] final(oas).paths@[i].0@ == k && (forall|m: Seq<char>|
                    has_slot(m) && method_slot(*item) != Some(m) ==> #[trigger] slot_of(final(oas).paths@[i].1, m)
                        == old_slot(old(oas).paths@, k, m)) && leaf_params_ok(final(oas).paths@[i].1.parameters, self.variable_map@, *item),
            path_keys(final(oas).paths@) == (match leaf_path(self.variable_map@, *item) {
                Some(k) => with_key(path_keys(old(oas).paths@), k),
                None => path_keys(old(oas).paths@),
            }),
    {
        proof {
            reveal_strlit("<request>");
        }
        let name: String = match &item.name {
            Some(n) => n.clone(),
            None => "<request>".to_owned(),
        };
        assert(name@ =~= request_name(*item));
        let request = match &item.request {
            Some(r) => r,
            None => return,
        };
        let u = match &request.url {
            Some(u) => u,
            None => return,
        };
        match &u.host {
            Some(parts) => {
                let url = self.server_url(&u.protocol, parts);
                register_server(&mut oas.servers, url);
            },
            None => {},
        }
        let p = match &u.path {
            Some(p) => p,
            None => return,
        };
        let resolved = self.resolve_segments(p);
        let key = Self::path_template(&resolved);
        assert(texts(resolved@) =~= Seq::new(p@.len(), |i: int| segment_template(self.variable_map@, p@[i]@)));
        assert(key@ == path_key(self.variable_map@, p@));
        let ghost keys_before = path_keys(oas.paths@);
        let idx = path_index(&mut oas.paths, &key);
        assert(path_keys(oas.paths@) == with_key(keys_before, key@));
        let description = match &request.description {
            Some(d) => d.clone(),
            None => name.clone(),
        };
        let path_parameters = self.variable_map.generate_path_parameters(&resolved, &u.variable);
        assert(segments_view(resolved@) =~= templates(self.variable_map@, p@));
        assert(leaf_params_ok(path_parameters, self.variable_map@, *item));
        let mut op = Operation {
            summary: Some(name.clone()),
            description: Some(description),
            tags: None,
            parameters: None,
            request_body: None,
            responses: Vec::new(),
            operation_id: None,
        };
        match &u.query {
            Some(qp) => {
                op.parameters = self.variable_map.generate_query_parameters(qp);
            },
            None => {},
        }
        let header_type = match &request.header {
            Some(headers) => header_content_type(headers),
            None => None,
        };
        match &request.body {
            Some(body) => {
                op.request_body = Some(self.build_request_body(body, header_type));
            },
            None => {},
        }
        if hierarchy.len() > 0 {
            op.tags = Some(copy_texts(hierarchy));
        }
        assert(op.summary matches Some(x) && x@ == request_name(*item));
        let ghost summary_g = op.summary;
        let ghost tags_g = op.tags;
        assert(has_request_parts(op, self.variable_map@, *item));
        let ghost desc_g = op.description;
        let ghost body_g = op.request_body;
        match &item.response {
            Some(responses) => {
                let mut i: usize = 0;
                while i < responses.len()
                    invariant
                        i <= responses.len(),
                        op.summary == summary_g,
                        op.tags == tags_g,
                        op.description == desc_g,
                        op.request_body == body_g,
                        item.response == Some(*responses),
                        crate::content::response_codes(op.responses@) == example_codes(responses@.subrange(0, i as int)),
                    decreases responses.len() - i,
                {
                    let ghost sub = responses@.subrange(0, i + 1);
                    assert(sub.drop_last() =~= responses@.subrange(0, i as int));
                    assert(sub.last() == responses@[i as int]);
                    match &responses[i] {
                        Some(res) => {
                            let response = self.build_response(res);
                            match res.code {
                                Some(code) => {
                                    let ct = code_text_exec(code);
                                    proof {
                                        lemma_insert_codes(op.responses@, ct, response);
                                    }
                                    map_insert(&mut op.responses, ct, response);
                                },
                                None => {},
                            }
                        },
                        None => {},
                    }
                    i = i + 1;
                }
                assert(responses@.subrange(0, responses.len() as int) =~= responses@);
            },
            None => {
                assert(crate::content::response_codes(op.responses@) =~= Seq::<Seq<char>>::empty());
            },
        }
        let ghost responses_before = op.responses@;
        ensure_success_response(&mut op.responses);
        assert(exists|k: int| 0 <= k < op.responses@.len() && crate::content::is_success_code(#[trigger] op.responses@[k].0@)) by {
            if !(exists|k: int| 0 <= k < responses_before.len() && crate::content::is_success_code(#[trigger] responses_before[k].0@)) {
                let last = op.responses@.len() - 1;
                assert(op.responses@[last].0@ == seq!['2', '0', '0']);
                assert(crate::content::is_success_code(op.responses@[last].0@));
            }
        }
        proof {
            let c = crate::content::response_codes(responses_before);
            assert(has_success(c) == (exists|k: int| 0 <= k < responses_before.len() && crate::content::is_success_code(#[trigger] responses_before[k].0@))) by {
                if has_success(c) {
                    let q = choose|q: int| 0 <= q < c.len() && crate::content::is_success_code(#[trigger] c[q]);
                    assert(crate::content::is_success_code(responses_before[q].0@));
                }
                if exists|k: int| 0 <= k < responses_before.len() && crate::content::is_success_code(#[trigger] responses_before[k].0@) {
                    let q = choose|q: int| 0 <= q < responses_before.len() && crate::content::is_success_code(#[trigger] responses_before[q].0@);
                    assert(crate::content::is_success_code(c[q]));
                }
            }
            if has_success(c) {
                assert(crate::content::response_codes(op.responses@) =~= with_success(c));
            } else {
                assert(crate::content::response_codes(op.responses@) =~= with_success(c));
            }
        }
        let ghost kk = choose|k: int| 0 <= k < op.responses@.len() && crate::content::is_success_code(#[trigger] op.responses@[k].0@);
        let ghost responses_g = op.responses;
        let ghost paths_before = oas.paths@;
        let ghost old_paths = old(oas).paths@;
        let (path_name, mut path_item) = oas.paths.remove(idx);
        path_item.parameters = path_parameters;
        let ghost pi0 = path_item;
        assert(leaf_params_ok(pi0.parameters, self.variable_map@, *item));
        assert(forall|m: Seq<char>| has_slot(m) ==> #[trigger] slot_of(pi0, m) == old_slot(old_paths, key@, m));
        match &request.method {
            Some(method) => {
                let m = lowercase(method.as_str());
                let ghost ids_before = operation_ids@;
                op.operation_id = Some(operation_id(operation_ids, name.as_str()));
                let ghost op_g = op;
                assert(op.operation_id matches Some(x) && x@ == issued_id(ids_before, id_base(request_name(*item))));
                assert(op.responses == responses_g);
                assert(crate::content::is_success_code(op.responses@[kk].0@));
                assert(op.summary matches Some(x) && x@ == request_name(*item));
                assert(if hierarchy@.len() > 0 { op.tags matches Some(tg) && tg@ == hierarchy@ } else { op.tags is None });
                assert(is_request_op(op_g, request_name(*item), issued_id(ids_before, id_base(request_name(*item))), hierarchy@, item_codes(*item)));
                assert(has_request_parts(op_g, self.variable_map@, *item));
                proof {
                    reveal_strlit("get");
                    reveal_strlit("post");
                    reveal_strlit("put");
                    reveal_strlit("delete");
                    reveal_strlit("patch");
                    reveal_strlit("options");
                    reveal_strlit("trace");
                    assert(("get")@ =~= seq!['g', 'e', 't']);
                    assert(("post")@ =~= seq!['p', 'o', 's', 't']);
                    assert(("put")@ =~= seq!['p', 'u', 't']);
                    assert(("delete")@ =~= seq!['d', 'e', 'l', 'e', 't', 'e']);
                    assert(("patch")@ =~= seq!['p', 'a', 't', 'c', 'h']);
                    assert(("options")@ =~= seq!['o', 'p', 't', 'i', 'o', 'n', 's']);
                    assert(("trace")@ =~= seq!['t', 'r', 'a', 'c', 'e']);
                }
                if text_eq(m.as_str(), "get") {
                    path_item.get = Some(op);
                } else if text_eq(m.as_str(), "post") {
                    path_item.post = Some(op);
                } else if text_eq(m.as_str(), "put") {
                    path_item.put = Some(op);
                } else if text_eq(m.as_str(), "delete") {
                    path_item.delete = Some(op);
                } else if text_eq(m.as_str(), "patch") {
                    path_item.patch = Some(op);
                } else if text_eq(m.as_str(), "options") {
                    path_item.options = Some(op);
                } else if text_eq(m.as_str(), "trace") {
                    path_item.trace = Some(op);
                }
                assert(has_slot(m@) ==> slot_of(path_item, m@) == Some(op_g));
                assert(forall|mm: Seq<char>| has_slot(mm) && mm != m@ ==> #[trigger] slot_of(path_item, mm) == slot_of(pi0, mm));
                assert(!has_slot(m@) ==> path_item == pi0);
            },
            None => {},
        }
        let ghost pi_g = path_item;
        assert(path_item.parameters == pi0.parameters);
        oas.paths.insert(idx, (path_name, path_item));
        assert(path_keys(oas.paths@) =~= path_keys(paths_before));
        assert(oas.paths@[idx as int].1 == pi_g);
        assert(oas.paths@[idx as int].0@ == key@);
    }

    /// Walks the items in order: a folder adds a tag and is walked with its name on the
    /// folder stack; a request leaf is transformed under the current stack.
    pub fn transform(&self, items: &Vec<Item>, oas: &mut OpenApi, operation_ids: &mut OperationIds, hierarchy: &mut Vec<String>)
        ensures
            same_info(*old(oas), *final(oas)),
            tag_names(final(oas).tags@) == tag_names(old(oas).tags@) + folder_tags(items@),
            server_urls(final(oas).servers@) == servers_after(self.variable_map@, server_urls(old(oas).servers@), items@),
            path_keys(final(oas).paths@) == paths_after(self.variable_map@, path_keys(old(oas).paths@), items@),
            final(operation_ids)@ == ids_after(old(operation_ids)@, items@),
            final(hierarchy)@ == old(hierarchy)@,
        decreases items@, 1nat,
    {
        let mut i: usize = 0;
        while i < items.len()
            invariant
                i <= items.len(),
                same_info(*old(oas), *oas),
                tag_names(oas.tags@) == tag_names(old(oas).tags@) + folder_tags(items@.subrange(0, i as int)),
                server_urls(oas.servers@) == servers_after(self.variable_map@, server_urls(old(oas).servers@), items@.subrange(0, i as int)),
                path_keys(oas.paths@) == paths_after(self.variable_map@, path_keys(old(oas).paths@), items@.subrange(0, i as int)),
                operation_ids@ == ids_after(old(operation_ids)@, items@.subrange(0, i as int)),
                hierarchy@ == old(hierarchy)@,
            decreases items.len() - i,
        {
            let ghost sub = items@.subrange(0, i + 1);
            assert(sub.drop_last() =~= items@.subrange(0, i as int));
            assert(sub.last() == items@[i as int]);
            let item = &items[i];
            match &item.children {
                Some(children) => {
                    let name: String = match &item.name {
                        Some(n) => n.clone(),
                        None => "<folder>".to_owned(),
                    };
                    proof {
                        reveal_strlit("<folder>");
                        assert(("<folder>")@ =~= seq!['<', 'f', 'o', 'l', 'd', 'e', 'r', '>']);
                        assert(decreases_to!(items@ => items@[i as int]));
                        assert(decreases_to!(items@[i as int] => children@));
                    }
                    let description = crate::params::copy_text(&item.description);
                    self.transform_folder(children, oas, operation_ids, hierarchy, name, description);
                    assert(name@ == folder_name(item.name));
                    assert(item_tags(items@[i as int]) == seq![(name@, opt_text(description))] + folder_tags(children@));
                    assert(folder_tags(sub) == folder_tags(items@.subrange(0, i as int)) + item_tags(items@[i as int]));
                    assert(tag_names(oas.tags@) =~= tag_names(old(oas).tags@) + folder_tags(sub));
                    assert(servers_after(self.variable_map@, server_urls(old(oas).servers@), sub) == item_servers(self.variable_map@, servers_after(self.variable_map@, server_urls(old(oas).servers@), items@.subrange(0, i as int)), items@[i as int]));
                    assert(paths_after(self.variable_map@, path_keys(old(oas).paths@), sub) == item_paths(self.variable_map@, paths_after(self.variable_map@, path_keys(old(oas).paths@), items@.subrange(0, i as int)), items@[i as int]));
                    assert(ids_after(old(operation_ids)@, sub) == item_ids(ids_after(old(operation_ids)@, items@.subrange(0, i as int)), items@[i as int]));
                },
                None => {
                    let ghost tags_before = oas.tags;
                    self.transform_request(item, oas, operation_ids, hierarchy);
                    assert(item_tags(items@[i as int]) =~= Seq::<(Seq<char>, Option<Seq<char>>)>::empty());
                    assert(servers_after(self.variable_map@, server_urls(old(oas).servers@), sub) == item_servers(self.variable_map@, servers_after(self.variable_map@, server_urls(old(oas).servers@), items@.subrange(0, i as int)), items@[i as int]));
                    assert(paths_after(self.variable_map@, path_keys(old(oas).paths@), sub) == item_paths(self.variable_map@, paths_after(self.variable_map@, path_keys(old(oas).paths@), items@.subrange(0, i as int)), items@[i as int]));
                    assert(ids_after(old(operation_ids)@, sub) == item_ids(ids_after(old(operation_ids)@, items@.subrange(0, i as int)), items@[i as int]));
                    assert(folder_tags(sub) == folder_tags(items@.subrange(0, i as int)) + item_tags(items@[i as int]));
                    assert(folder_tags(sub) =~= folder_tags(items@.subrange(0, i as int)));
                },
            }
            i = i + 1;
        }
        assert(items@.subrange(0, items.len() as int) =~= items@);
    }

    /// Adds a folder's tag, then walks its items with its name on the folder stack.
    pub fn transform_folder(&self, items: &Vec<Item>, oas: &mut OpenApi, operation_ids: &mut OperationIds, hierarchy: &mut Vec<String>, name: String, description: Option<String>)
        ensures
            same_info(*old(oas), *final(oas)),
            tag_names(final(oas).tags@) == tag_names(old(oas).tags@) + seq![(name@, opt_text(description))] + folder_tags(items@),
            server_urls(final(oas).servers@) == servers_after(self.variable_map@, server_urls(old(oas).servers@), items@),
            path_keys(final(oas).paths@) == paths_after(self.variable_map@, path_keys(old(oas).paths@), items@),
            final(operation_ids)@ == ids_after(old(operation_ids)@, items@),
            final(hierarchy)@ == old(hierarchy)@,
        decreases items@, 2nat,
    {
        let ghost before = tag_names(oas.tags@);
        let ghost dv = opt_text(description);
        oas.tags.push(Tag { name: name.clone(), description });
        assert(tag_names(oas.tags@) =~= before + seq![(name@, dv)]);
        hierarchy.push(name);
        self.transform(items, oas, operation_ids, hierarchy);
        hierarchy.pop();
        assert(hierarchy@ =~= old(hierarchy)@);
    }

    /// The specification document of a collection: its folders as tags, its requests as
    /// operations under their path templates, their servers.
    pub fn transpile(spec: Collection) -> (r: OpenApi)
        ensures
            r.openapi@ == seq!['3', '.', '0', '.', '3'],
            r.version@ == seq!['1', '.', '0', '.', '0'],
            r.title == spec.name,
            r.description == spec.description,
            tag_names(r.tags@) == folder_tags(spec.items@),
            server_urls(r.servers@) == servers_after(var_entries(spec.variables@), Seq::empty(), spec.items@),
            path_keys(r.paths@) == paths_after(var_entries(spec.variables@), Seq::empty(), spec.items@),
    {
        let transpiler = Transpiler::new(&spec.variables);
        proof {
            reveal_strlit("3.0.3");
            reveal_strlit("1.0.0");
        }
        let mut oas = OpenApi {
            openapi: "3.0.3".to_owned(),
            title: spec.name,
            description: spec.description,
            version: "1.0.0".to_owned(),
            servers: Vec::new(),
            tags: Vec::new(),
            paths: Vec::new(),
        };
        assert(oas.openapi@ =~= seq!['3', '.', '0', '.', '3']);
        assert(oas.version@ =~= seq!['1', '.', '0', '.', '0']);
        assert(tag_names(oas.tags@) =~= Seq::<(Seq<char>, Option<Seq<char>>)>::empty());
        assert(server_urls(oas.servers@) =~= Seq::<Seq<char>>::empty());
        assert(path_keys(oas.paths@) =~= Seq::<Seq<char>>::empty());
        let mut operation_ids = OperationIds::new();
        let mut hierarchy: Vec<String> = Vec::new();
        transpiler.transform(&spec.items, &mut oas, &mut operation_ids, &mut hierarchy);
        assert(tag_names(oas.tags@) =~= folder_tags(spec.items@));
        oas
    }

    /// The path template of a request, from its resolved segments.
    pub fn path_template(resolved: &Vec<String>) -> (r: String)
        ensures
            r@ == seq!['/'] + join(texts(resolved@), '/'),
    {
        let mut out: Vec<char> = Vec::new();
        out.push('/');
        let j = join_exec(resolved, '/');
        append_chars(&mut out, &j);
        string_of(&out)
    }
}

} // verus!
