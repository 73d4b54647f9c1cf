//! The renderer: applies resolved placeholder values back into a request,
//! replacing each key's token in every location recorded for it and
//! leaving unresolved keys as literal text.

use vstd::prelude::*;

use crate::body::Body;
use crate::body::BodyModel;
use crate::body::FormDataModel;
use crate::body::FormDataValue;
use crate::placeholders::spec_token;
use crate::placeholders::Location;
use crate::placeholders::LocationModel;
use crate::placeholders::Placeholders;
use crate::request::Request;
use crate::request::RequestModel;
use crate::resolver::spec_get_value;
use crate::resolver::PlaceholderValues;
use crate::schema::spec_valid_header_value;
use crate::table::Table;
use crate::text::replace_all;
use crate::text::str_chars;

verus! {

/// The rejection of a substitution that made a header value illegal.
#[derive(Debug)]
pub enum RenderError {
    InvalidHeader { name: String, value: String },
}

/// The mathematical model of a [`RenderError`].
pub enum RenderErrorModel {
    InvalidHeader { name: Seq<char>, value: Seq<char> },
}

impl View for RenderError {
    type V = RenderErrorModel;

    open spec fn view(&self) -> RenderErrorModel {
        match self {
            RenderError::InvalidHeader { name, value } => RenderErrorModel::InvalidHeader {
                name: name@,
                value: value@,
            },
        }
    }
}

impl RenderError {
    /// The one-line description of this error.
    pub fn message(&self) -> (r: String)
        ensures
            self@ matches RenderErrorModel::InvalidHeader { name, value } ==> r@
                == "rendered header value is invalid: "@ + name + " "@ + value,
    {
        match self {
            RenderError::InvalidHeader { name, value } => {
                let mut m = "rendered header value is invalid: ".to_owned();
                m.append(name.as_str());
                m.append(" ");
                m.append(value.as_str());
                m
            },
        }
    }
}

/// One step of rendering a text: when the indexed key resolved to a value
/// and the text's location is recorded for it, every occurrence of the
/// key's token is replaced; otherwise the text stands.
pub open spec fn spec_apply_entry(
    s: Seq<char>,
    e: (Seq<char>, Seq<LocationModel>),
    values: Seq<(Seq<char>, Option<Seq<char>>)>,
    loc: LocationModel,
) -> Seq<char> {
    match spec_get_value(values, e.0) {
        Some(v) => if e.1.contains(loc) {
            replace_all(s, spec_token(e.0), v)
        } else {
            s
        },
        None => s,
    }
}

/// The rendering of one text at one location: the index's entries applied
/// in order.
pub open spec fn spec_render_text(
    s: Seq<char>,
    entries: Seq<(Seq<char>, Seq<LocationModel>)>,
    values: Seq<(Seq<char>, Option<Seq<char>>)>,
    loc: LocationModel,
) -> Seq<char>
    decreases entries.len(),
{
    if entries.len() == 0 {
        s
    } else {
        spec_render_text(spec_apply_entry(s, entries[0], values, loc), entries.drop_first(), values, loc)
    }
}

/// The rendering of the headers: each value rendered at its own header's
/// location, names and order kept.
pub open spec fn spec_render_headers(
    headers: Seq<(Seq<char>, Seq<char>)>,
    entries: Seq<(Seq<char>, Seq<LocationModel>)>,
    values: Seq<(Seq<char>, Option<Seq<char>>)>,
) -> Seq<(Seq<char>, Seq<char>)> {
    headers.map_values(
        |h: (Seq<char>, Seq<char>)|
            (h.0, spec_render_text(h.1, entries, values, LocationModel::Headers(h.0))),
    )
}

/// The rendering of the query parameters: every pair whose key matches a
/// recorded location is rendered, keys and order kept.
pub open spec fn spec_render_query(
    pairs: Seq<(Seq<char>, Seq<char>)>,
    entries: Seq<(Seq<char>, Seq<LocationModel>)>,
    values: Seq<(Seq<char>, Option<Seq<char>>)>,
) -> Seq<(Seq<char>, Seq<char>)> {
    pairs.map_values(
        |p: (Seq<char>, Seq<char>)|
            (p.0, spec_render_text(p.1, entries, values, LocationModel::QueryParams(p.0))),
    )
}

/// The rendering of the body: raw content and binary paths render at the
/// body location, form entries each at their own keyed location; an
/// absent body stands.
pub open spec fn spec_render_body(
    b: BodyModel,
    entries: Seq<(Seq<char>, Seq<LocationModel>)>,
    values: Seq<(Seq<char>, Option<Seq<char>>)>,
) -> BodyModel {
    match b {
        BodyModel::Empty => BodyModel::Empty,
        BodyModel::Raw { content, mime } => BodyModel::Raw {
            content: spec_render_text(content, entries, values, LocationModel::Body),
            mime,
        },
        BodyModel::Binary { path, mime } => BodyModel::Binary {
            path: spec_render_text(path, entries, values, LocationModel::Body),
            mime,
        },
        BodyModel::FormData(es) => BodyModel::FormData(
            es.map_values(
                |e: (Seq<char>, FormDataModel)|
                    (
                        e.0,
                        match e.1 {
                            FormDataModel::Text(t) => FormDataModel::Text(
                                spec_render_text(
                                    t,
                                    entries,
                                    values,
                                    LocationModel::BodyForm(e.0),
                                ),
                            ),
                            FormDataModel::File(p) => FormDataModel::File(
                                spec_render_text(
                                    p,
                                    entries,
                                    values,
                                    LocationModel::BodyForm(e.0),
                                ),
                            ),
                        },
                    ),
            ),
        ),
        BodyModel::XFormUrlEncoded(es) => BodyModel::XFormUrlEncoded(
            es.map_values(
                |e: (Seq<char>, Seq<char>)|
                    (e.0, spec_render_text(e.1, entries, values, LocationModel::BodyForm(e.0))),
            ),
        ),
    }
}

/// The rendering of a whole request: every substitutable field rendered
/// at its location, everything else kept.
pub open spec fn spec_render_request(
    rm: RequestModel,
    entries: Seq<(Seq<char>, Seq<LocationModel>)>,
    values: Seq<(Seq<char>, Option<Seq<char>>)>,
) -> RequestModel {
    RequestModel {
        method: rm.method,
        url: spec_render_text(rm.url, entries, values, LocationModel::Url),
        http_version: rm.http_version,
        metadata: rm.metadata,
        headers: spec_render_headers(rm.headers, entries, values),
        query_params: spec_render_query(rm.query_params, entries, values),
        body: spec_render_body(rm.body, entries, values),
        variables: rm.variables,
        input_params: rm.input_params,
    }
}

/// The literal token text of a key.
fn make_token(key: &str) -> (t: Vec<char>)
    ensures
        t@ == spec_token(key@),
{
    let mut t: Vec<char> = Vec::new();
    t.push('{');
    t.push('{');
    let chars = str_chars(key);
    let mut i: usize = 0;
    while i < chars.len()
        invariant
            i <= chars.len(),
            chars@ == key@,
            t@ == seq!['{', '{'] + key@.take(i as int),
        decreases chars.len() - i,
    {
        t.push(chars[i]);
        i = i + 1;
        assert(seq!['{', '{'] + key@.take(i as int) =~= (seq!['{', '{'] + key@.take(i - 1)).push(
            key@[i - 1],
        ));
    }
    assert(key@.take(key@.len() as int) =~= key@);
    t.push('}');
    t.push('}');
    assert(t@ =~= spec_token(key@));
    t
}

/// Whether the location is among the recorded ones.
fn has_location(locs: &Vec<Location>, loc: &Location) -> (b: bool)
    ensures
        b == locs.deep_view().contains(loc@),
{
    let mut i: usize = 0;
    while i < locs.len()
        invariant
            i <= locs.len(),
            forall|q: int| 0 <= q < i ==> locs.deep_view()[q] != loc@,
        decreases locs.len() - i,
    {
        if &locs[i] == loc {
            assert(locs.deep_view()[i as int] == loc@);
            return true;
        }
        i = i + 1;
    }
    proof {
        if locs.deep_view().contains(loc@) {
            let w = choose|w: int|
                0 <= w < locs.deep_view().len() && locs.deep_view()[w] == loc@;
        }
    }
    false
}

/// A renderer holding the placeholder index of a request and the resolved
/// values to substitute.
pub struct Renderer<'ph> {
    pub placeholders: &'ph Placeholders,
    pub values: PlaceholderValues,
}

impl<'ph> Renderer<'ph> {
    /// A renderer over the given index and resolved values.
    pub fn new(placeholders: &'ph Placeholders, values: PlaceholderValues) -> (r: Renderer<'ph>)
        ensures
            r.placeholders@ == placeholders@,
            r.values@ == values@,
    {
        Renderer { placeholders, values }
    }

    /// Renders one text at one location: the index's entries applied in
    /// order.
    fn render_text(&self, s: &String, loc: &Location) -> (r: String)
        ensures
            r@ == spec_render_text(s@, self.placeholders@, self.values@, loc@),
    {
        let ghost entries = self.placeholders@;
        let mut cur = s.clone();
        let mut i: usize = 0;
        proof {
            assert(entries.skip(0) =~= entries);
        }
        while i < self.placeholders.entries.len()
            invariant
                i <= self.placeholders.entries.len(),
                entries == self.placeholders@,
                spec_render_text(s@, entries, self.values@, loc@) == spec_render_text(
                    cur@,
                    entries.skip(i as int),
                    self.values@,
                    loc@,
                ),
            decreases self.placeholders.entries.len() - i,
        {
            proof {
                assert(entries.skip(i as int).drop_first() =~= entries.skip(i + 1));
                assert(entries.skip(i as int)[0] == entries[i as int]);
            }
            let e = &self.placeholders.entries[i];
            match self.values.get_value(e.0.as_str()) {
                Some(v) => {
                    if has_location(&e.1, loc) {
                        let token = make_token(e.0.as_str());
                        let to = str_chars(v.as_str());
                        cur = crate::text::replace_in_string(&cur, &token, &to);
                    }
                },
                None => {},
            }
            proof {
                assert(entries[i as int].0 == e.0@);
                assert(entries[i as int].1 == e.1.deep_view());
            }
            i = i + 1;
        }
        proof {
            assert(entries.skip(entries.len() as int) =~= Seq::<
                (Seq<char>, Seq<LocationModel>),
            >::empty());
        }
        cur
    }

    /// Renders the request: every resolved key's token is replaced in
    /// every location recorded for it, unresolved keys stay as literal
    /// text, and every rendered header value must remain a legal one. The
    /// rendering fails exactly when some header's rendered value is
    /// illegal, naming that header.
    pub fn render(&self, request: Request) -> (r: Result<Request, RenderError>)
        ensures
            match r {
                Ok(out) => out@ == spec_render_request(
                    request@,
                    self.placeholders@,
                    self.values@,
                ) && forall|j: int|
                    0 <= j < request@.headers.len() ==> spec_valid_header_value(
                        spec_render_text(
                            (#[trigger] request@.headers[j]).1,
                            self.placeholders@,
                            self.values@,
                            LocationModel::Headers(request@.headers[j].0),
                        ),
                    ),
                Err(e) => exists|j: int|
                    0 <= j < request@.headers.len() && !spec_valid_header_value(
                        spec_render_text(
                            (#[trigger] request@.headers[j]).1,
                            self.placeholders@,
                            self.values@,
                            LocationModel::Headers(request@.headers[j].0),
                        ),
                    ) && e@ == (RenderErrorModel::InvalidHeader {
                        name: request@.headers[j].0,
                        value: spec_render_text(
                            request@.headers[j].1,
                            self.placeholders@,
                            self.values@,
                            LocationModel::Headers(request@.headers[j].0),
                        ),
                    }),
            },
    {
        let ghost rm = request@;
        let ghost entries = self.placeholders@;
        let ghost values = self.values@;
        let url = self.render_text(&request.url, &Location::Url);
        let mut headers: Vec<(String, String)> = Vec::new();
        let hs = request.headers.entries_vec();
        let mut i: usize = 0;
        while i < hs.len()
            invariant
                i <= hs.len(),
                hs.deep_view() == rm.headers,
                rm == request@,
                entries == self.placeholders@,
                values == self.values@,
                headers.deep_view().len() == i,
                forall|q: int|
                    0 <= q < i ==> #[trigger] headers.deep_view()[q] == (
                        rm.headers[q].0,
                        spec_render_text(
                            rm.headers[q].1,
                            entries,
                            values,
                            LocationModel::Headers(rm.headers[q].0),
                        ),
                    ),
                forall|q: int|
                    0 <= q < i ==> spec_valid_header_value(
                        spec_render_text(
                            (#[trigger] rm.headers[q]).1,
                            entries,
                            values,
                            LocationModel::Headers(rm.headers[q].0),
                        ),
                    ),
            decreases hs.len() - i,
        {
            let name = hs[i].0.clone();
            let loc = Location::Headers(name.clone());
            let rendered = self.render_text(&hs[i].1, &loc);
            if !crate::schema::valid_header_value(rendered.as_str()) {
                proof {
                    assert(rm.headers[i as int] == (hs@[i as int].0@, hs@[i as int].1@));
                }
                return Err(RenderError::InvalidHeader { name, value: rendered });
            }
            let ghost before = headers.deep_view();
            headers.push((name, rendered));
            proof {
                assert(rm.headers[i as int] == (hs@[i as int].0@, hs@[i as int].1@));
                assert(headers.deep_view() =~= before.push(
                    (
                        rm.headers[i as int].0,
                        spec_render_text(
                            rm.headers[i as int].1,
                            entries,
                            values,
                            LocationModel::Headers(rm.headers[i as int].0),
                        ),
                    ),
                ));
            }
            i = i + 1;
        }
        proof {
            assert(headers.deep_view() =~= spec_render_headers(rm.headers, entries, values));
        }
        let mut query_params: Vec<(String, String)> = Vec::new();
        let mut i: usize = 0;
        while i < request.query_params.len()
            invariant
                i <= request.query_params.len(),
                rm == request@,
                entries == self.placeholders@,
                values == self.values@,
                query_params.deep_view().len() == i,
                forall|q: int|
                    0 <= q < i ==> #[trigger] query_params.deep_view()[q] == (
                        rm.query_params[q].0,
                        spec_render_text(
                            rm.query_params[q].1,
                            entries,
                            values,
                            LocationModel::QueryParams(rm.query_params[q].0),
                        ),
                    ),
            decreases request.query_params.len() - i,
        {
            let key = request.query_params[i].0.clone();
            let loc = Location::QueryParams(key.clone());
            let rendered = self.render_text(&request.query_params[i].1, &loc);
            let ghost before = query_params.deep_view();
            query_params.push((key, rendered));
            proof {
                assert(rm.query_params[i as int] == (
                    request.query_params@[i as int].0@,
                    request.query_params@[i as int].1@,
                ));
                assert(query_params.deep_view() =~= before.push(
                    (
                        rm.query_params[i as int].0,
                        spec_render_text(
                            rm.query_params[i as int].1,
                            entries,
                            values,
                            LocationModel::QueryParams(rm.query_params[i as int].0),
                        ),
                    ),
                ));
            }
            i = i + 1;
        }
        proof {
            assert(query_params.deep_view() =~= spec_render_query(
                rm.query_params,
                entries,
                values,
            ));
        }
        let body = match request.body {
            Body::Empty => Body::Empty,
            Body::Raw { content, mime } => {
                let rendered = self.render_text(&content, &Location::Body);
                Body::Raw { content: rendered, mime }
            },
            Body::Binary { path, mime } => {
                let rendered = self.render_text(&path, &Location::Body);
                Body::Binary { path: rendered, mime }
            },
            Body::FormData(form) => {
                let ghost es = rm.body->FormData_0;
                let fvec = form.entries_vec();
                let mut out: Vec<(String, FormDataValue)> = Vec::new();
                let mut i: usize = 0;
                while i < fvec.len()
                    invariant
                        i <= fvec.len(),
                        fvec.deep_view() == es,
                        entries == self.placeholders@,
                        values == self.values@,
                        out.deep_view().len() == i,
                        forall|q: int|
                            0 <= q < i ==> #[trigger] out.deep_view()[q] == (
                                es[q].0,
                                match es[q].1 {
                                    FormDataModel::Text(t) => FormDataModel::Text(
                                        spec_render_text(
                                            t,
                                            entries,
                                            values,
                                            LocationModel::BodyForm(es[q].0),
                                        ),
                                    ),
                                    FormDataModel::File(p) => FormDataModel::File(
                                        spec_render_text(
                                            p,
                                            entries,
                                            values,
                                            LocationModel::BodyForm(es[q].0),
                                        ),
                                    ),
                                },
                            ),
                    decreases fvec.len() - i,
                {
                    let key = fvec[i].0.clone();
                    let loc = Location::BodyForm(key.clone());
                    let val = match &fvec[i].1 {
                        FormDataValue::Text(t) => FormDataValue::Text(
                            self.render_text(t, &loc),
                        ),
                        FormDataValue::File(p) => FormDataValue::File(
                            self.render_text(p, &loc),
                        ),
                    };
                    let ghost before = out.deep_view();
                    out.push((key, val));
                    proof {
                        assert(es[i as int] == (fvec@[i as int].0@, fvec@[i as int].1@));
                        assert(out.deep_view() =~= before.push((es[i as int].0, val@)));
                    }
                    i = i + 1;
                }
                proof {
                    assert(out.deep_view() =~= es.map_values(
                        |e: (Seq<char>, FormDataModel)|
                            (
                                e.0,
                                match e.1 {
                                    FormDataModel::Text(t) => FormDataModel::Text(
                                        spec_render_text(
                                            t,
                                            entries,
                                            values,
                                            LocationModel::BodyForm(e.0),
                                        ),
                                    ),
                                    FormDataModel::File(p) => FormDataModel::File(
                                        spec_render_text(
                                            p,
                                            entries,
                                            values,
                                            LocationModel::BodyForm(e.0),
                                        ),
                                    ),
                                },
                            ),
                    ));
                }
                Body::FormData(Table::new(out))
            },
            Body::XFormUrlEncoded(form) => {
                let ghost es = rm.body->XFormUrlEncoded_0;
                let fvec = form.entries_vec();
                let mut out: Vec<(String, String)> = Vec::new();
                let mut i: usize = 0;
                while i < fvec.len()
                    invariant
                        i <= fvec.len(),
                        fvec.deep_view() == es,
                        entries == self.placeholders@,
                        values == self.values@,
                        out.deep_view().len() == i,
                        forall|q: int|
                            0 <= q < i ==> #[trigger] out.deep_view()[q] == (
                                es[q].0,
                                spec_render_text(
                                    es[q].1,
                                    entries,
                                    values,
                                    LocationModel::BodyForm(es[q].0),
                                ),
                            ),
                    decreases fvec.len() - i,
                {
                    let key = fvec[i].0.clone();
                    let loc = Location::BodyForm(key.clone());
                    let rendered = self.render_text(&fvec[i].1, &loc);
                    let ghost before = out.deep_view();
                    out.push((key, rendered));
                    proof {
                        assert(es[i as int] == (fvec@[i as int].0@, fvec@[i as int].1@));
                        assert(out.deep_view() =~= before.push(
                            (
                                es[i as int].0,
                                spec_render_text(
                                    es[i as int].1,
                                    entries,
                                    values,
                                    LocationModel::BodyForm(es[i as int].0),
                                ),
                            ),
                        ));
                    }
                    i = i + 1;
                }
                proof {
                    assert(out.deep_view() =~= es.map_values(
                        |e: (Seq<char>, Seq<char>)|
                            (
                                e.0,
                                spec_render_text(
                                    e.1,
                                    entries,
                                    values,
                                    LocationModel::BodyForm(e.0),
                                ),
                            ),
                    ));
                }
                Body::XFormUrlEncoded(Table::new(out))
            },
        };
        Ok(
            Request {
                method: request.method,
                url,
                http_version: request.http_version,
                metadata: request.metadata,
                headers: Table::new(headers),
                query_params,
                body,
                variables: request.variables,
                input_params: request.input_params,
            },
        )
    }
}

/// Idempotence: once a text holds no token of any key that would be
/// substituted at its location, rendering it again changes nothing.
pub proof fn lemma_render_idempotent(
    s: Seq<char>,
    entries: Seq<(Seq<char>, Seq<LocationModel>)>,
    values: Seq<(Seq<char>, Option<Seq<char>>)>,
    loc: LocationModel,
)
    requires
        forall|i: int|
            0 <= i < entries.len() ==> ((spec_get_value(values, (#[trigger] entries[i]).0) is Some
                && entries[i].1.contains(loc)) ==> !crate::text::has_substring(
                s,
                spec_token(entries[i].0),
            )),
    ensures
        spec_render_text(s, entries, values, loc) == s,
    decreases entries.len(),
{
    if entries.len() > 0 {
        let e = entries[0];
        if spec_get_value(values, e.0) is Some && e.1.contains(loc) {
            crate::text::lemma_replace_absent(
                s,
                spec_token(e.0),
                spec_get_value(values, e.0)->0,
            );
        }
        assert(spec_apply_entry(s, e, values, loc) == s);
        assert(forall|i: int|
            0 <= i < entries.drop_first().len() ==> entries.drop_first()[i] == entries[i + 1]);
        lemma_render_idempotent(s, entries.drop_first(), values, loc);
    }
}

/// Unresolved passthrough: a key with no resolved value keeps its literal
/// token through a whole rendering pass, whatever other keys are
/// substituted around it.
pub proof fn lemma_unresolved_passthrough(
    s: Seq<char>,
    entries: Seq<(Seq<char>, Seq<LocationModel>)>,
    values: Seq<(Seq<char>, Option<Seq<char>>)>,
    loc: LocationModel,
    k: Seq<char>,
)
    requires
        crate::placeholders::spec_has_token(s, k),
        spec_get_value(values, k) is None,
        forall|i: int|
            0 <= i < entries.len() ==> crate::placeholders::spec_is_key(
                (#[trigger] entries[i]).0,
            ),
    ensures
        crate::placeholders::spec_has_token(spec_render_text(s, entries, values, loc), k),
    decreases entries.len(),
{
    if entries.len() > 0 {
        let e = entries[0];
        let s1 = spec_apply_entry(s, e, values, loc);
        assert(crate::placeholders::spec_has_token(s1, k)) by {
            match spec_get_value(values, e.0) {
                Some(v) => {
                    if e.1.contains(loc) {
                        assert(e.0 != k);
                        crate::placeholders::lemma_replace_keeps_token(s, k, e.0, v);
                    }
                },
                None => {},
            }
        }
        assert(forall|i: int|
            0 <= i < entries.drop_first().len() ==> entries.drop_first()[i] == entries[i + 1]);
        lemma_unresolved_passthrough(s1, entries.drop_first(), values, loc, k);
    }
}

/// The outcome of one run over a request: the rendered request, or the
/// reason the run stopped.
#[derive(Debug)]
pub enum ReplaceError {
    /// Keys were left unresolved while that was not allowed; carries
    /// every unresolved key.
    Unresolved(Vec<String>),
    /// A substitution broke a header value.
    Render(RenderError),
}

/// A successful run: the output renders the request through an index that
/// records exactly the request's placeholder occurrences and values that
/// are exactly the source chain's answers for the indexed keys.
pub open spec fn spec_replaced_ok<P: crate::value_picker::ValuePicker>(
    rm: RequestModel,
    pickers: Seq<P>,
    out: RequestModel,
    ph: Placeholders,
    vals: Seq<(Seq<char>, Option<Seq<char>>)>,
) -> bool {
    &&& forall|k: Seq<char>, l: LocationModel|
        ph.locs(k).contains(l) <==> crate::placeholders::spec_key_at_location(rm, k, l)
    &&& vals.len() == ph@.len()
    &&& forall|i: int|
        0 <= i < vals.len() ==> (#[trigger] vals[i]).0 == ph@[i].0 && vals[i].1
            == crate::resolver::spec_chain_picks(pickers, ph@[i].0)
    &&& out == spec_render_request(rm, ph@, vals)
    &&& forall|j: int|
        0 <= j < rm.headers.len() ==> spec_valid_header_value(
            spec_render_text(
                (#[trigger] rm.headers[j]).1,
                ph@,
                vals,
                LocationModel::Headers(rm.headers[j].0),
            ),
        )
}

/// A run stopped by rendering: through an index and values consistent with
/// the request and the source chain, some header's rendered value is
/// illegal, and the error names exactly that header.
pub open spec fn spec_replace_failed<P: crate::value_picker::ValuePicker>(
    rm: RequestModel,
    pickers: Seq<P>,
    e: RenderErrorModel,
    ph: Placeholders,
    vals: Seq<(Seq<char>, Option<Seq<char>>)>,
) -> bool {
    &&& forall|k: Seq<char>, l: LocationModel|
        ph.locs(k).contains(l) <==> crate::placeholders::spec_key_at_location(rm, k, l)
    &&& vals.len() == ph@.len()
    &&& forall|i: int|
        0 <= i < vals.len() ==> (#[trigger] vals[i]).0 == ph@[i].0 && vals[i].1
            == crate::resolver::spec_chain_picks(pickers, ph@[i].0)
    &&& exists|j: int|
        0 <= j < rm.headers.len() && !spec_valid_header_value(
            spec_render_text(
                (#[trigger] rm.headers[j]).1,
                ph@,
                vals,
                LocationModel::Headers(rm.headers[j].0),
            ),
        ) && e == (RenderErrorModel::InvalidHeader {
            name: rm.headers[j].0,
            value: spec_render_text(
                rm.headers[j].1,
                ph@,
                vals,
                LocationModel::Headers(rm.headers[j].0),
            ),
        })
}

/// Resolves the request's placeholders through the given resolver and
/// renders the values in. When a key stays unresolved and that is not
/// allowed, the run stops and names every unresolved key; when every key
/// the request holds resolves, or unresolved keys are allowed, rendering
/// proceeds and unresolved tokens stay as literal text.
/// A rendered outcome is accounted for: some index and values consistent
/// with the request and the source chain produce exactly it.
pub open spec fn spec_run_rendered<P: crate::value_picker::ValuePicker>(
    rm: RequestModel,
    pickers: Seq<P>,
    out: RequestModel,
) -> bool {
    exists|ph: Placeholders, vals: Seq<(Seq<char>, Option<Seq<char>>)>|
        #[trigger] spec_replaced_ok(rm, pickers, out, ph, vals)
}

/// A rendering failure is accounted for: some index and values consistent
/// with the request and the source chain break exactly the named header.
pub open spec fn spec_run_failed<P: crate::value_picker::ValuePicker>(
    rm: RequestModel,
    pickers: Seq<P>,
    e: RenderErrorModel,
) -> bool {
    exists|ph: Placeholders, vals: Seq<(Seq<char>, Option<Seq<char>>)>|
        #[trigger] spec_replace_failed(rm, pickers, e, ph, vals)
}

/// Renders with values already resolved against the chain whose answers
/// they are, wrapping the outcome as a run's outcome.
fn finish_render<P: crate::value_picker::ValuePicker>(
    request: Request,
    placeholders: &Placeholders,
    values: PlaceholderValues,
    Ghost(pickers): Ghost<Seq<P>>,
) -> (r: Result<Request, ReplaceError>)
    requires
        forall|k: Seq<char>, l: LocationModel|
            placeholders.locs(k).contains(l) <==> crate::placeholders::spec_key_at_location(
                request@,
                k,
                l,
            ),
        values@.len() == placeholders@.len(),
        forall|i: int|
            0 <= i < values@.len() ==> (#[trigger] values@[i]).0 == placeholders@[i].0
                && values@[i].1 == crate::resolver::spec_chain_picks(
                pickers,
                placeholders@[i].0,
            ),
    ensures
        !(r matches Err(ReplaceError::Unresolved(ks))),
        r matches Ok(out) ==> spec_run_rendered(request@, pickers, out@),
        r matches Err(ReplaceError::Render(e)) ==> spec_run_failed(request@, pickers, e@),
{
    let ghost rm = request@;
    let ghost gph = *placeholders;
    let ghost gvals = values@;
    let renderer = Renderer::new(placeholders, values);
    match renderer.render(request) {
        Ok(out) => {
            proof {
                assert(spec_replaced_ok(rm, pickers, out@, gph, gvals));
                assert(spec_run_rendered(rm, pickers, out@));
            }
            Ok(out)
        },
        Err(e) => {
            proof {
                assert(spec_replace_failed(rm, pickers, e@, gph, gvals));
                assert(spec_run_failed(rm, pickers, e@));
            }
            Err(ReplaceError::Render(e))
        },
    }
}

/// Resolves the request's placeholders through the given resolver and
/// renders the values in. When a key stays unresolved and that is not
/// allowed, the run stops and names every unresolved key; when every key
/// the request holds resolves, or unresolved keys are allowed, rendering
/// proceeds and unresolved tokens stay as literal text.
pub fn replace_placeholders<P: crate::value_picker::ValuePicker>(
    request: Request,
    resolver: &crate::resolver::Resolver<P>,
    allow_unresolved: bool,
) -> (r: Result<Request, ReplaceError>)
    ensures
        allow_unresolved ==> !(r matches Err(ReplaceError::Unresolved(ks))),
        r matches Err(ReplaceError::Unresolved(ks)) ==> !allow_unresolved && ks@.len() > 0 && (
        forall|j: int|
            0 <= j < ks.deep_view().len() ==> crate::placeholders::spec_request_has_key(
                request@,
                #[trigger] ks.deep_view()[j],
            ) && crate::resolver::spec_chain_picks(
                resolver.pickers@,
                ks.deep_view()[j],
            ) is None),
        (forall|k: Seq<char>|
            crate::placeholders::spec_request_has_key(request@, k)
                ==> crate::resolver::spec_chain_picks(resolver.pickers@, k) is Some) ==> !(
        r matches Err(ReplaceError::Unresolved(ks))),
        r matches Ok(out) ==> spec_run_rendered(request@, resolver.pickers@, out@),
        r matches Err(ReplaceError::Render(e)) ==> spec_run_failed(
            request@,
            resolver.pickers@,
            e@,
        ),
{
    let ghost rm = request@;
    let placeholders = Placeholders::from(&request);
    let values = resolver.resolve(&placeholders);
    if !allow_unresolved {
        let missing = values.unresolved();
        if missing.len() > 0 {
            proof {
                crate::resolver::lemma_unresolved_elements(values@);
                assert forall|j: int|
                    0 <= j < missing.deep_view().len() implies crate::placeholders::spec_request_has_key(
                    rm,
                    #[trigger] missing.deep_view()[j],
                ) && crate::resolver::spec_chain_picks(
                    resolver.pickers@,
                    missing.deep_view()[j],
                ) is None by {
                    let k = missing.deep_view()[j];
                    let i = choose|i: int|
                        0 <= i < values@.len() && (#[trigger] values@[i]).0 == k
                            && values@[i].1 is None;
                    assert(placeholders@[i].0 == k);
                    assert(placeholders.key_set().contains(k));
                }
                assert(crate::placeholders::spec_request_has_key(rm, missing.deep_view()[0])
                    && crate::resolver::spec_chain_picks(
                    resolver.pickers@,
                    missing.deep_view()[0],
                ) is None);
            }
            return Err(ReplaceError::Unresolved(missing));
        }
        proof {
            crate::resolver::lemma_unresolved_empty(values@);
        }
    }
    proof {
        if forall|k: Seq<char>|
            crate::placeholders::spec_request_has_key(rm, k)
                ==> crate::resolver::spec_chain_picks(resolver.pickers@, k) is Some {
            assert forall|i: int| 0 <= i < values@.len() implies (#[trigger] values@[i]).1
                is Some by {
                let k = placeholders@[i].0;
                assert(placeholders.key_set().contains(k));
            }
        }
    }
    finish_render::<P>(request, &placeholders, values, Ghost(resolver.pickers@))
}

/// Replaces the placeholder text by the value inside the matching entry
/// of a multipart form: both text and file entries are substitutable.
pub fn render_form_data(form: &mut Table<FormDataValue>, key: &str, placeholder: &str, val: &str)
    ensures
        final(form)@.len() == old(form)@.len(),
        forall|i: int|
            0 <= i < old(form)@.len() ==> #[trigger] final(form)@[i] == if old(form)@[i].0
                == key@ {
                (
                    old(form)@[i].0,
                    match old(form)@[i].1 {
                        FormDataModel::Text(t) => FormDataModel::Text(
                            replace_all(t, placeholder@, val@),
                        ),
                        FormDataModel::File(p) => FormDataModel::File(
                            replace_all(p, placeholder@, val@),
                        ),
                    },
                )
            } else {
                old(form)@[i]
            },
{
    let pat = str_chars(placeholder);
    let to = str_chars(val);
    let n = form.len();
    let mut i: usize = 0;
    while i < n
        invariant
            i <= n,
            n == form@.len() == old(form)@.len(),
            pat@ == placeholder@,
            to@ == val@,
            forall|q: int| i <= q < n ==> #[trigger] form@[q] == old(form)@[q],
            forall|q: int|
                0 <= q < i ==> #[trigger] form@[q] == if old(form)@[q].0 == key@ {
                    (
                        old(form)@[q].0,
                        match old(form)@[q].1 {
                            FormDataModel::Text(t) => FormDataModel::Text(
                                replace_all(t, placeholder@, val@),
                            ),
                            FormDataModel::File(p) => FormDataModel::File(
                                replace_all(p, placeholder@, val@),
                            ),
                        },
                    )
                } else {
                    old(form)@[q]
                },
        decreases n - i,
    {
        if crate::text::str_eq(form.entry_at(i).0.as_str(), key) {
            let new_val = match &form.entry_at(i).1 {
                FormDataValue::Text(t) => FormDataValue::Text(
                    crate::text::replace_in_string(t, &pat, &to),
                ),
                FormDataValue::File(p) => FormDataValue::File(
                    crate::text::replace_in_string(p, &pat, &to),
                ),
            };
            form.set_value_at(i, new_val);
        }
        i = i + 1;
    }
}

/// Replaces the placeholder text by the value inside the matching entry
/// of a URL-encoded form.
pub fn render_form_urlencoded(form: &mut Table<String>, key: &str, placeholder: &str, val: &str)
    ensures
        final(form)@.len() == old(form)@.len(),
        forall|i: int|
            0 <= i < old(form)@.len() ==> #[trigger] final(form)@[i] == if old(form)@[i].0
                == key@ {
                (old(form)@[i].0, replace_all(old(form)@[i].1, placeholder@, val@))
            } else {
                old(form)@[i]
            },
{
    let pat = str_chars(placeholder);
    let to = str_chars(val);
    let n = form.len();
    let mut i: usize = 0;
    while i < n
        invariant
            i <= n,
            n == form@.len() == old(form)@.len(),
            pat@ == placeholder@,
            to@ == val@,
            forall|q: int| i <= q < n ==> #[trigger] form@[q] == old(form)@[q],
            forall|q: int|
                0 <= q < i ==> #[trigger] form@[q] == if old(form)@[q].0 == key@ {
                    (old(form)@[q].0, replace_all(old(form)@[q].1, placeholder@, val@))
                } else {
                    old(form)@[q]
                },
        decreases n - i,
    {
        if crate::text::str_eq(form.entry_at(i).0.as_str(), key) {
            let new_val = crate::text::replace_in_string(&form.entry_at(i).1, &pat, &to);
            form.set_value_at(i, new_val);
        }
        i = i + 1;
    }
}

} // verus!
