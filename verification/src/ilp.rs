//! InfluxDB line protocol over HTTP.

use crate::clock;
use crate::json;
use crate::json::{Json, JsonNumber, JsonView, NumberView};
use crate::lists;
use crate::text;
use vstd::prelude::*;

verus! {

/// Where lines are written, and the table that they go to.
#[derive(Debug)]
pub struct IlpHttp {
    pub url: String,
    pub table: String,
}

/// `path` without a final `/exec`.
pub open spec fn without_exec(path: Seq<char>) -> Seq<char> {
    if text::ends_with(path, "/exec"@) {
        path.take(path.len() - "/exec"@.len())
    } else {
        path
    }
}

/// `path` with `/imp` as its end.
pub open spec fn with_imp(path: Seq<char>) -> Seq<char> {
    if text::ends_with(path, "/imp"@) {
        path
    } else if text::ends_with(path, "/"@) {
        path + "imp"@
    } else {
        path + "/imp"@
    }
}

/// What stands before the first question mark of `url`.
pub open spec fn path(url: Seq<char>) -> Seq<char> {
    url.take(text::place_of(url, '?'))
}

/// What stands behind the first question mark of `url`.
pub open spec fn query(url: Seq<char>) -> Seq<char> {
    let mark = text::place_of(url, '?');
    if mark < url.len() {
        url.skip(mark + 1)
    } else {
        seq![]
    }
}

/// The parameters that `url` names.
pub open spec fn params(url: Seq<char>) -> Seq<Seq<char>> {
    text::pieces(query(url), '&')
}

/// Those of `list` that say something, and not of the precision.
pub open spec fn kept_params(list: Seq<Seq<char>>) -> Seq<Seq<char>>
    decreases list.len(),
{
    if list.len() == 0 {
        seq![]
    } else {
        let rest = kept_params(list.drop_last());
        if list.last().len() == 0 || text::starts_with(list.last(), "precision="@) {
            rest
        } else {
            rest.push(list.last())
        }
    }
}

/// The parameters of `base` but for the precision.
pub open spec fn other_params(base: Seq<char>) -> Seq<Seq<char>> {
    kept_params(params(base))
}

/// The address that lines are written to, given that of the server: always
/// `/imp`, always in nanoseconds.
pub open spec fn endpoint(base: Seq<char>) -> Seq<char> {
    with_imp(without_exec(path(base))) + "?"@ + text::join(
        other_params(base).push("precision=ns"@),
        "&"@,
    )
}

/// How a character of a tag is written.
pub open spec fn tag_char() -> spec_fn(char) -> Seq<char> {
    |c: char|
        if c == ',' || c == ' ' || c == '=' {
            seq!['\\', c]
        } else {
            seq![c]
        }
}

/// How a character of a string field is written. A line break would end the
/// line, so it is written as two characters.
pub open spec fn string_char() -> spec_fn(char) -> Seq<char> {
    |c: char|
        if c == '"' {
            seq!['\\', '"']
        } else if c == '\n' {
            seq!['\\', 'n']
        } else {
            seq![c]
        }
}

/// A tag as it is written.
pub open spec fn escaped_tag(s: Seq<char>) -> Seq<char> {
    text::replaced(s, tag_char())
}

/// The contents of a string field as they are written.
pub open spec fn escaped_string(s: Seq<char>) -> Seq<char> {
    text::replaced(s, string_char())
}

/// The tags that have a value, each as `name=value`.
pub open spec fn tag_texts(tags: Seq<(Seq<char>, Seq<char>)>) -> Seq<Seq<char>>
    decreases tags.len(),
{
    if tags.len() == 0 {
        seq![]
    } else {
        let rest = tag_texts(tags.drop_last());
        if tags.last().1.len() == 0 {
            rest
        } else {
            rest.push(escaped_tag(tags.last().0) + "="@ + escaped_tag(tags.last().1))
        }
    }
}

/// One field as `name=value`; nothing for a null.
pub open spec fn field_text(name: Seq<char>, value: JsonView) -> Option<Seq<char>> {
    match value {
        JsonView::Null => None,
        JsonView::Bool(b) => Some(
            name + "="@ + (if b {
                "t"@
            } else {
                "f"@
            }),
        ),
        JsonView::Number(NumberView::Int(i)) => Some(name + "="@ + text::int_text(i as int) + "i"@),
        JsonView::Number(NumberView::Real(x)) => Some(name + "="@ + x.plain),
        JsonView::Text(s) => Some(name + "=\""@ + escaped_string(s) + "\""@),
        _ => Some(name + "=\""@ + escaped_string(json::json_text(value)) + "\""@),
    }
}

/// The fields that are written.
pub open spec fn field_texts(fields: Seq<(Seq<char>, JsonView)>) -> Seq<Seq<char>>
    decreases fields.len(),
{
    if fields.len() == 0 {
        seq![]
    } else {
        let rest = field_texts(fields.drop_last());
        match field_text(fields.last().0, fields.last().1) {
            Some(t) => rest.push(t),
            None => rest,
        }
    }
}

/// The table and its tags.
pub open spec fn line_head(table: Seq<char>, tags: Seq<(Seq<char>, Seq<char>)>) -> Seq<char> {
    if tags.len() == 0 {
        escaped_tag(table)
    } else {
        escaped_tag(table) + ","@ + text::join(tag_texts(tags), ","@)
    }
}

/// A line of line protocol; nothing where no field is written.
pub open spec fn line(
    table: Seq<char>,
    tags: Seq<(Seq<char>, Seq<char>)>,
    fields: Seq<(Seq<char>, JsonView)>,
    ts_ns: Option<i64>,
) -> Option<Seq<char>> {
    let written = field_texts(fields);
    let body = line_head(table, tags) + " "@ + text::join(written, ","@);
    if written.len() == 0 {
        None
    } else {
        match ts_ns {
            Some(ns) => Some(body + " "@ + text::int_text(ns as int)),
            None => Some(body),
        }
    }
}

impl IlpHttp {
    /// Normalises the server's address, so that lines always go to `/imp` and
    /// carry nanoseconds.
    #[verifier::loop_isolation(false)]
    pub fn new(base_url: String, table: &str) -> (r: IlpHttp)
        ensures
            r.url@ == endpoint(base_url@),
            r.table@ == table@,
    {
        let base = text::chars_of(base_url.as_str());
        let mark: usize = text::find_char(&base, '?');
        let mut path: Vec<char> = Vec::new();
        for i in 0..mark
            invariant
                path@ == base@.take(i as int),
        {
            path.push(base[i]);
            assert(path@ == base@.take(i + 1));
        }
        let mut rest: Vec<char> = Vec::new();
        if mark < base.len() {
            let start: usize = mark + 1;
            for i in start..base.len()
                invariant
                    rest@ == base@.subrange(start as int, i as int),
            {
                rest.push(base[i]);
            }
            assert(rest@ == base@.skip(mark + 1));
        }
        assert(rest@ == query(base@));
        let ghost whole = path@;
        if text::is_suffix(&path, "/exec") {
            proof {
                reveal_strlit("/exec");
            }
            path.truncate(path.len() - 5);
            assert(path@ == whole.take(whole.len() - 5));
        }
        assert(path@ == without_exec(whole));
        let mut url = text::text_of(&path);
        if !text::is_suffix(&path, "/imp") {
            if text::is_suffix(&path, "/") {
                url.append("imp");
            } else {
                url.append("/imp");
            }
        }
        let named = text::pieces_of(&rest, '&');
        let ghost all = text::texts(named@);
        let mut kept: Vec<String> = Vec::new();
        for i in 0..named.len()
            invariant
                text::texts(kept@) == kept_params(all.take(i as int)),
        {
            let ghost before = text::texts(kept@);
            assert(all.take(i + 1).drop_last() == all.take(i as int));
            assert(all.take(i + 1).last() == named@[i as int]@);
            let one = named[i].as_str();
            if !one.is_empty() && !text::is_prefix(one, "precision=") {
                let one = String::from_str(one);
                kept.push(one);
                assert(text::texts(kept@) == before.push(one@));
            }
        }
        assert(all.take(named@.len() as int) == all);
        let ghost others = text::texts(kept@);
        kept.push(String::from_str("precision=ns"));
        assert(text::texts(kept@) == others.push("precision=ns"@));
        url.append("?");
        url.append(text::joined(&kept, "&").as_str());
        IlpHttp { url, table: table.to_owned() }
    }

    /// A tag with its separators escaped.
    #[verifier::loop_isolation(false)]
    fn esc_tag(s: &str) -> (r: String)
        ensures
            r@ == escaped_tag(s@),
    {
        let chars = text::chars_of(s);
        let mut r = String::new();
        for i in 0..chars.len()
            invariant
                r@ == escaped_tag(s@.take(i as int)),
        {
            let c = chars[i];
            assert(s@.take(i + 1).drop_last() == s@.take(i as int));
            if c == ',' || c == ' ' || c == '=' {
                r.push('\\');
            }
            r.push(c);
            assert(r@ == escaped_tag(s@.take(i as int)) + tag_char()(c));
        }
        assert(s@.take(s@.len() as int) == s@);
        r
    }

    /// The contents of a string with its quotes and line breaks escaped.
    #[verifier::loop_isolation(false)]
    fn esc_str(s: &str) -> (r: String)
        ensures
            r@ == escaped_string(s@),
    {
        let chars = text::chars_of(s);
        let mut r = String::new();
        for i in 0..chars.len()
            invariant
                r@ == escaped_string(s@.take(i as int)),
        {
            let c = chars[i];
            assert(s@.take(i + 1).drop_last() == s@.take(i as int));
            if c == '"' || c == '\n' {
                r.push('\\');
            }
            if c == '\n' {
                r.push('n');
            } else {
                r.push(c);
            }
            assert(r@ == escaped_string(s@.take(i as int)) + string_char()(c));
        }
        assert(s@.take(s@.len() as int) == s@);
        r
    }

    /// One field as `name=value`.
    fn field(name: &str, value: &Json) -> (r: Option<String>)
        ensures
            match r {
                Some(t) => field_text(name@, value@) == Some(t@),
                None => field_text(name@, value@) is None,
            },
    {
        let mut t = String::from_str(name);
        match value {
            Json::Null => {
                return None;
            },
            Json::Bool(b) => {
                t.append("=");
                if *b {
                    t.append("t");
                } else {
                    t.append("f");
                }
            },
            Json::Number(JsonNumber::Int(i)) => {
                t.append("=");
                t.append(text::int_to_text(*i).as_str());
                t.append("i");
            },
            Json::Number(JsonNumber::Real(x)) => {
                t.append("=");
                t.append(x.plain.as_str());
            },
            Json::Text(s) => {
                t.append("=\"");
                t.append(IlpHttp::esc_str(s.as_str()).as_str());
                t.append("\"");
            },
            _ => {
                t.append("=\"");
                t.append(IlpHttp::esc_str(value.to_text().as_str()).as_str());
                t.append("\"");
            },
        }
        Some(t)
    }

    /// Turns a record into one line. `None` where no field is written.
    #[verifier::loop_isolation(false)]
    pub fn json_to_line(
        &self,
        tags: &Vec<(String, String)>,
        fields: &Vec<(String, Json)>,
        ts_ns: Option<i64>,
    ) -> (r: Option<String>)
        ensures
            match r {
                Some(t) => line(self.table@, json::entries(tags@), json::entries(fields@), ts_ns)
                    == Some(t@),
                None => line(self.table@, json::entries(tags@), json::entries(fields@), ts_ns) is None,
            },
    {
        let ghost all_tags = json::entries(tags@);
        let ghost all_fields = json::entries(fields@);
        let mut head = IlpHttp::esc_tag(self.table.as_str());
        if tags.len() > 0 {
            let mut list: Vec<String> = Vec::new();
            for i in 0..tags.len()
                invariant
                    text::texts(list@) == tag_texts(all_tags.take(i as int)),
            {
                let ghost before = text::texts(list@);
                assert(all_tags.take(i + 1).drop_last() == all_tags.take(i as int));
                assert(all_tags.take(i + 1).last() == (tags@[i as int].0@, tags@[i as int].1@));
                if !tags[i].1.as_str().is_empty() {
                    let mut t = IlpHttp::esc_tag(tags[i].0.as_str());
                    t.append("=");
                    t.append(IlpHttp::esc_tag(tags[i].1.as_str()).as_str());
                    list.push(t);
                    assert(text::texts(list@) == before.push(t@));
                }
            }
            assert(all_tags.take(tags@.len() as int) == all_tags);
            head.append(",");
            head.append(text::joined(&list, ",").as_str());
        }
        let mut written: Vec<String> = Vec::new();
        for i in 0..fields.len()
            invariant
                text::texts(written@) == field_texts(all_fields.take(i as int)),
        {
            let ghost before = text::texts(written@);
            assert(all_fields.take(i + 1).drop_last() == all_fields.take(i as int));
            assert(all_fields.take(i + 1).last() == (fields@[i as int].0@, fields@[i as int].1@));
            match IlpHttp::field(fields[i].0.as_str(), &fields[i].1) {
                Some(t) => {
                    written.push(t);
                    assert(text::texts(written@) == before.push(t@));
                },
                None => {},
            }
        }
        assert(all_fields.take(fields@.len() as int) == all_fields);
        assert(text::texts(written@).len() == written@.len());
        if written.len() == 0 {
            return None;
        }
        let mut t = head;
        t.append(" ");
        t.append(text::joined(&written, ",").as_str());
        match ts_ns {
            Some(ns) => {
                t.append(" ");
                t.append(text::int_to_text(ns).as_str());
            },
            None => {},
        }
        Some(t)
    }
}

impl IlpHttp {
    /// What is sent for `lines`: one below the other.
    pub fn request_body(lines: &Vec<String>) -> (r: String)
        ensures
            r@ == text::join(text::texts(lines@), "\n"@),
    {
        text::joined(lines, "\n")
    }

    /// What the server's reply to written lines means: `status` is its number,
    /// `status_text` that number as it is shown, `body` the text that came.
    pub fn write_lines(&self, status: u16, status_text: &str, body: &str) -> (r: Result<(), String>)
        ensures
            match r {
                Ok(_) => 200 <= status < 300,
                Err(e) => !(200 <= status < 300) && e@ == "ILP write failed: url="@ + self.url@
                    + " status="@ + status_text@ + " body="@ + body@,
            },
    {
        if 200 <= status && status < 300 {
            return Ok(());
        }
        let mut e = String::from_str("ILP write failed: url=");
        e.append(self.url.as_str());
        e.append(" status=");
        e.append(status_text);
        e.append(" body=");
        e.append(body);
        Err(e)
    }
}

/// The nanoseconds of an ISO 8601 text; those of the present where there is no
/// text, or it is none.
pub fn choose_timestamp_ns(iso_or_none: Option<&str>) -> (r: i64)
    ensures
        iso_or_none matches Some(t) ==> (clock::rfc3339_moment(t@) matches Some(m) ==> r
            == clock::moment_ns(m)),
        exists|present: clock::Moment|
            r == #[trigger] clock::timestamp_ns(text::optional(iso_or_none), present),
{
    clock::timestamp_ns_at(iso_or_none, clock::now())
}

/// The path of what lines are written to, and its parameters.
proof fn lemma_endpoint_parts(base: Seq<char>)
    ensures
        path(endpoint(base)) == with_imp(without_exec(path(base))),
        params(endpoint(base)) == other_params(base).push("precision=ns"@),
{
    reveal_strlit("/imp");
    reveal_strlit("imp");
    reveal_strlit("?");
    reveal_strlit("&");
    reveal_strlit("precision=ns");
    let front = with_imp(without_exec(path(base)));
    let list = other_params(base).push("precision=ns"@);
    let back = text::join(list, "&"@);
    let whole = endpoint(base);
    lemma_no_mark(base);
    assert(whole == front + "?"@ + back);
    assert forall|i: int| 0 <= i < front.len() implies whole[i] != '?' by {
        assert(whole[i] == front[i]);
    }
    assert(whole[front.len() as int] == '?');
    text::lemma_place_of(whole, '?', front.len() as int);
    assert(whole.take(front.len() as int) == front);
    assert(whole.skip(front.len() as int + 1) == back);
    text::lemma_pieces(query(base), '&');
    lemma_kept_params(params(base));
    assert("&"@ == seq!['&']);
    assert forall|i: int| 0 <= i < list.len() implies !(#[trigger] list[i]).contains('&') by {
        if i < list.len() - 1 {
            let one = kept_params(params(base))[i];
            assert(params(base).contains(one));
        }
    }
    text::law_join_then_pieces(list, '&');
}

/// The path of an address holds no question mark, nor does what is made of it.
proof fn lemma_no_mark(base: Seq<char>)
    ensures
        forall|i: int| 0 <= i < with_imp(without_exec(path(base))).len() ==> #[trigger] with_imp(
            without_exec(path(base)),
        )[i] != '?',
{
    reveal_strlit("/imp");
    reveal_strlit("imp");
    let front = path(base);
    lemma_before_place(base, '?');
    assert(forall|i: int| 0 <= i < front.len() ==> front[i] != '?');
    let cut = without_exec(front);
    assert(forall|i: int| 0 <= i < cut.len() ==> cut[i] == front[i]);
}

/// Before the first `c` there is none.
proof fn lemma_before_place(s: Seq<char>, c: char)
    ensures
        0 <= text::place_of(s, c) <= s.len(),
        forall|i: int| 0 <= i < text::place_of(s, c) ==> s[i] != c,
    decreases s.len(),
{
    if s.len() > 0 && s[0] != c {
        lemma_before_place(s.drop_first(), c);
        assert forall|i: int| 0 <= i < text::place_of(s, c) implies s[i] != c by {
            if i > 0 {
                assert(s.drop_first()[i - 1] == s[i]);
            }
        }
    }
}

/// What is kept was there, says something, and not of the precision; keeping
/// it again changes nothing.
proof fn lemma_kept_params(list: Seq<Seq<char>>)
    ensures
        forall|i: int|
            0 <= i < kept_params(list).len() ==> list.contains(#[trigger] kept_params(list)[i])
                && !text::starts_with(kept_params(list)[i], "precision="@),
        kept_params(kept_params(list)) == kept_params(list),
    decreases list.len(),
{
    if list.len() > 0 {
        let shorter = list.drop_last();
        lemma_kept_params(shorter);
        let rest = kept_params(shorter);
        let all = kept_params(list);
        assert forall|i: int| 0 <= i < all.len() implies list.contains(#[trigger] all[i])
            && !text::starts_with(all[i], "precision="@) by {
            if i < rest.len() {
                assert(all[i] == rest[i]);
                let k = choose|k: int| 0 <= k < shorter.len() && shorter[k] == rest[i];
                assert(list[k] == all[i]);
            } else {
                assert(list[list.len() - 1] == all[i]);
            }
        }
        if all.len() > rest.len() {
            assert(all.drop_last() == rest);
        }
    }
}

/// Lines always go to a path that ends with `/imp`.
pub proof fn law_endpoint_imports(base: Seq<char>)
    ensures
        text::ends_with(path(endpoint(base)), "/imp"@),
{
    lemma_endpoint_parts(base);
    lemma_with_imp(without_exec(path(base)));
}

/// What is given `/imp` as its end ends with it.
proof fn lemma_with_imp(path: Seq<char>)
    ensures
        text::ends_with(with_imp(path), "/imp"@),
{
    reveal_strlit("/imp");
    reveal_strlit("imp");
    reveal_strlit("/");
    let imp = with_imp(path);
    if !text::ends_with(path, "/imp"@) {
        if text::ends_with(path, "/"@) {
            assert(path.last() == path.skip(path.len() - 1)[0]);
        }
        assert(imp.skip(imp.len() - 4) == "/imp"@);
    }
}

/// Lines always carry nanoseconds: that is the one precision that is named.
pub proof fn law_endpoint_precision(base: Seq<char>)
    ensures
        params(endpoint(base)).last() == "precision=ns"@,
        forall|i: int|
            0 <= i < params(endpoint(base)).len() - 1 ==> !text::starts_with(
                #[trigger] params(endpoint(base))[i],
                "precision="@,
            ),
{
    lemma_endpoint_parts(base);
    lemma_kept_params(params(base));
    let all = params(endpoint(base));
    assert forall|i: int| 0 <= i < all.len() - 1 implies !text::starts_with(
        #[trigger] all[i],
        "precision="@,
    ) by {
        assert(all[i] == other_params(base)[i]);
    }
}

/// What else the server's address names stays, in its order.
pub proof fn law_endpoint_keeps_params(base: Seq<char>)
    ensures
        params(endpoint(base)).drop_last() == other_params(base),
{
    lemma_endpoint_parts(base);
}

/// An address that lines are written to stays as it is.
pub proof fn law_endpoint_stable(base: Seq<char>)
    ensures
        endpoint(endpoint(base)) == endpoint(base),
{
    reveal_strlit("/exec");
    reveal_strlit("/imp");
    reveal_strlit("precision=");
    reveal_strlit("precision=ns");
    lemma_endpoint_parts(base);
    lemma_with_imp(without_exec(path(base)));
    lemma_kept_params(params(base));
    let front = path(endpoint(base));
    if text::ends_with(front, "/exec"@) {
        assert(front.last() == front.skip(front.len() - 5)[4]);
        assert(front.last() == front.skip(front.len() - 4)[3]);
    }
    let list = params(endpoint(base));
    assert(list.drop_last() == other_params(base));
    assert("precision=ns"@.take(10) == "precision="@);
}

/// No character of `s` breaks the line.
pub open spec fn unbroken(s: Seq<char>) -> bool {
    !s.contains('\n')
}

/// A record gives one line: where the table, the tags and the names of the fields
/// hold no line break, the line holds none, whatever the fields are.
pub proof fn law_one_line(
    table: Seq<char>,
    tags: Seq<(Seq<char>, Seq<char>)>,
    fields: Seq<(Seq<char>, JsonView)>,
    ts_ns: Option<i64>,
)
    requires
        unbroken(table),
        forall|i: int|
            0 <= i < tags.len() ==> unbroken((#[trigger] tags[i]).0) && unbroken(tags[i].1),
        forall|i: int| 0 <= i < fields.len() ==> unbroken((#[trigger] fields[i]).0),
        forall|i: int| 0 <= i < fields.len() ==> json::plainly_shown((#[trigger] fields[i]).1),
    ensures
        line(table, tags, fields, ts_ns) matches Some(l) ==> unbroken(l),
{
    reveal_strlit(",");
    reveal_strlit(" ");
    lemma_tag_unbroken(table);
    lemma_tags_unbroken(tags);
    lemma_fields_unbroken(fields);
    lemma_join_unbroken(tag_texts(tags), ","@);
    lemma_join_unbroken(field_texts(fields), ","@);
    match ts_ns {
        Some(ns) => lemma_int_unbroken(ns as int),
        None => {},
    }
    lemma_sum_unbroken(escaped_tag(table), ","@);
    lemma_sum_unbroken(escaped_tag(table) + ","@, text::join(tag_texts(tags), ","@));
    let head = line_head(table, tags);
    lemma_sum_unbroken(head, " "@);
    lemma_sum_unbroken(head + " "@, text::join(field_texts(fields), ","@));
    let body = head + " "@ + text::join(field_texts(fields), ","@);
    lemma_sum_unbroken(body, " "@);
    match ts_ns {
        Some(ns) => lemma_sum_unbroken(body + " "@, text::int_text(ns as int)),
        None => {},
    }
}

proof fn lemma_sum_unbroken(a: Seq<char>, b: Seq<char>)
    ensures
        unbroken(a) && unbroken(b) ==> unbroken(a + b),
{
    if unbroken(a) && unbroken(b) && (a + b).contains('\n') {
        let k = choose|k: int| 0 <= k < (a + b).len() && (a + b)[k] == '\n';
        if k < a.len() {
            assert(a[k] == '\n');
        } else {
            assert(b[k - a.len()] == '\n');
        }
    }
}

proof fn lemma_join_unbroken(list: Seq<Seq<char>>, sep: Seq<char>)
    requires
        unbroken(sep),
        forall|i: int| 0 <= i < list.len() ==> unbroken(#[trigger] list[i]),
    ensures
        unbroken(text::join(list, sep)),
    decreases list.len(),
{
    if list.len() > 1 {
        assert forall|i: int| 0 <= i < list.drop_last().len() implies unbroken(
            #[trigger] list.drop_last()[i],
        ) by {
            assert(list.drop_last()[i] == list[i]);
        }
        lemma_join_unbroken(list.drop_last(), sep);
        let front = text::join(list.drop_last(), sep);
        lemma_sum_unbroken(front, sep);
        lemma_sum_unbroken(front + sep, list.last());
    }
}

proof fn lemma_tag_unbroken(s: Seq<char>)
    requires
        unbroken(s),
    ensures
        unbroken(escaped_tag(s)),
    decreases s.len(),
{
    if s.len() > 0 {
        let shorter = s.drop_last();
        assert(s.contains(s.last()));
        if shorter.contains('\n') {
            let k = choose|k: int| 0 <= k < shorter.len() && shorter[k] == '\n';
            assert(s[k] == '\n');
        }
        lemma_tag_unbroken(shorter);
        assert(unbroken(tag_char()(s.last())));
        lemma_sum_unbroken(escaped_tag(shorter), tag_char()(s.last()));
    }
}

proof fn lemma_string_unbroken(s: Seq<char>)
    ensures
        unbroken(escaped_string(s)),
    decreases s.len(),
{
    if s.len() > 0 {
        lemma_string_unbroken(s.drop_last());
        assert(unbroken(string_char()(s.last())));
        lemma_sum_unbroken(escaped_string(s.drop_last()), string_char()(s.last()));
    }
}

proof fn lemma_nat_unbroken(n: nat)
    ensures
        unbroken(text::nat_text(n)),
    decreases n,
{
    if n >= 10 {
        lemma_nat_unbroken(n / 10);
        assert(text::nat_text(n) == text::nat_text(n / 10) + seq![text::digit(n % 10)]);
        lemma_sum_unbroken(text::nat_text(n / 10), seq![text::digit(n % 10)]);
    }
}

proof fn lemma_int_unbroken(i: int)
    ensures
        unbroken(text::int_text(i)),
{
    if i < 0 {
        lemma_nat_unbroken((-i) as nat);
        lemma_sum_unbroken(seq!['-'], text::nat_text((-i) as nat));
    } else {
        lemma_nat_unbroken(i as nat);
    }
}

proof fn lemma_tags_unbroken(tags: Seq<(Seq<char>, Seq<char>)>)
    requires
        forall|i: int|
            0 <= i < tags.len() ==> unbroken((#[trigger] tags[i]).0) && unbroken(tags[i].1),
    ensures
        forall|i: int| 0 <= i < tag_texts(tags).len() ==> unbroken(#[trigger] tag_texts(tags)[i]),
    decreases tags.len(),
{
    if tags.len() > 0 {
        reveal_strlit("=");
        let shorter = tags.drop_last();
        assert forall|i: int| 0 <= i < shorter.len() implies unbroken((#[trigger] shorter[i]).0)
            && unbroken(shorter[i].1) by {
            assert(shorter[i] == tags[i]);
        }
        lemma_tags_unbroken(shorter);
        let (name, value) = tags[tags.len() - 1];
        lemma_tag_unbroken(name);
        lemma_tag_unbroken(value);
        lemma_sum_unbroken(escaped_tag(name), "="@);
        lemma_sum_unbroken(escaped_tag(name) + "="@, escaped_tag(value));
        let rest = tag_texts(shorter);
        let all = tag_texts(tags);
        assert forall|i: int| 0 <= i < all.len() implies unbroken(#[trigger] all[i]) by {
            if i < rest.len() {
                assert(all[i] == rest[i]);
            }
        }
    }
}

proof fn lemma_field_unbroken(name: Seq<char>, value: JsonView)
    requires
        unbroken(name),
        json::plainly_shown(value),
    ensures
        field_text(name, value) matches Some(t) ==> unbroken(t),
{
    reveal_strlit("=");
    reveal_strlit("t");
    reveal_strlit("f");
    reveal_strlit("i");
    reveal_strlit("=\"");
    reveal_strlit("\"");
    lemma_sum_unbroken(name, "="@);
    lemma_sum_unbroken(name, "=\""@);
    match value {
        JsonView::Null => {},
        JsonView::Bool(b) => {
            lemma_sum_unbroken(name + "="@, "t"@);
            lemma_sum_unbroken(name + "="@, "f"@);
        },
        JsonView::Number(NumberView::Int(i)) => {
            lemma_int_unbroken(i as int);
            lemma_sum_unbroken(name + "="@, text::int_text(i as int));
            lemma_sum_unbroken(name + "="@ + text::int_text(i as int), "i"@);
        },
        JsonView::Number(NumberView::Real(x)) => {
            assert(unbroken(x.plain));
            lemma_sum_unbroken(name + "="@, x.plain);
        },
        _ => {
            let s = match value {
                JsonView::Text(s) => s,
                _ => json::json_text(value),
            };
            lemma_string_unbroken(s);
            lemma_sum_unbroken(name + "=\""@, escaped_string(s));
            lemma_sum_unbroken(name + "=\""@ + escaped_string(s), "\""@);
        },
    }
}

proof fn lemma_fields_unbroken(fields: Seq<(Seq<char>, JsonView)>)
    requires
        forall|i: int| 0 <= i < fields.len() ==> unbroken((#[trigger] fields[i]).0),
        forall|i: int| 0 <= i < fields.len() ==> json::plainly_shown((#[trigger] fields[i]).1),
    ensures
        forall|i: int| 0 <= i < field_texts(fields).len() ==> unbroken(#[trigger] field_texts(fields)[i]),
    decreases fields.len(),
{
    if fields.len() > 0 {
        let shorter = fields.drop_last();
        assert(forall|i: int| 0 <= i < shorter.len() ==> shorter[i] == fields[i]);
        lemma_fields_unbroken(shorter);
        let (name, value) = fields[fields.len() - 1];
        lemma_field_unbroken(name, value);
        let rest = field_texts(shorter);
        let all = field_texts(fields);
        assert forall|i: int| 0 <= i < all.len() implies unbroken(#[trigger] all[i]) by {
            if i < rest.len() {
                assert(all[i] == rest[i]);
            }
        }
    }
}

/// In a written tag every comma, space and equals sign has a backslash right
/// before it.
pub proof fn law_tag_separators_escaped(s: Seq<char>, i: int)
    requires
        0 <= i < escaped_tag(s).len(),
        escaped_tag(s)[i] == ',' || escaped_tag(s)[i] == ' ' || escaped_tag(s)[i] == '=',
    ensures
        i > 0 && escaped_tag(s)[i - 1] == '\\',
    decreases s.len(),
{
    let rest = escaped_tag(s.drop_last());
    if i < rest.len() {
        law_tag_separators_escaped(s.drop_last(), i);
    }
}

/// Different tags are written differently.
pub proof fn law_tags_stay_apart(a: Seq<char>, b: Seq<char>)
    requires
        escaped_tag(a) == escaped_tag(b),
    ensures
        a == b,
    decreases a.len(),
{
    if a.len() > 0 && b.len() > 0 {
        let whole = escaped_tag(a);
        assert(tag_char()(a.last()).last() == a.last());
        assert(tag_char()(b.last()).last() == b.last());
        assert(whole.last() == a.last());
        assert(whole.last() == b.last());
        let n = tag_char()(a.last()).len();
        assert(whole.take(whole.len() - n) == escaped_tag(a.drop_last()));
        assert(whole.take(whole.len() - n) == escaped_tag(b.drop_last()));
        law_tags_stay_apart(a.drop_last(), b.drop_last());
        assert(a == a.drop_last().push(a.last()));
        assert(b == b.drop_last().push(b.last()));
    } else {
        assert(a.len() > 0 ==> escaped_tag(a).len() > 0);
        assert(b.len() > 0 ==> escaped_tag(b).len() > 0);
        assert(a == b);
    }
}

/// In a written string field every quote has a backslash right before it, so
/// none ends the field early.
pub proof fn law_string_quotes_escaped(s: Seq<char>, i: int)
    requires
        0 <= i < escaped_string(s).len(),
        escaped_string(s)[i] == '"',
    ensures
        i > 0 && escaped_string(s)[i - 1] == '\\',
    decreases s.len(),
{
    let rest = escaped_string(s.drop_last());
    if i < rest.len() {
        law_string_quotes_escaped(s.drop_last(), i);
    }
}

/// A line is made exactly where some field is not null.
pub proof fn law_line_owed(
    table: Seq<char>,
    tags: Seq<(Seq<char>, Seq<char>)>,
    fields: Seq<(Seq<char>, JsonView)>,
    ts_ns: Option<i64>,
)
    ensures
        line(table, tags, fields, ts_ns) is Some <==> exists|i: int|
            0 <= i < fields.len() && !((#[trigger] fields[i]).1 is Null),
    decreases fields.len(),
{
    if fields.len() > 0 {
        let rest = fields.drop_last();
        law_line_owed(table, tags, rest, ts_ns);
        if !(fields.last().1 is Null) {
            assert(!(fields[fields.len() - 1].1 is Null));
        } else if line(table, tags, rest, ts_ns) is Some {
            let i = choose|i: int| 0 <= i < rest.len() && !((#[trigger] rest[i]).1 is Null);
            assert(fields[i] == rest[i]);
        } else {
            assert forall|i: int| 0 <= i < fields.len() implies (#[trigger] fields[i]).1 is Null by {
                if i < rest.len() {
                    assert(rest[i] == fields[i]);
                }
            }
        }
    }
}

/// A tag is written character by character, and only commas, spaces and equals
/// signs are written otherwise than they are: behind a backslash.
pub proof fn law_escaped_tag(a: Seq<char>, b: Seq<char>, c: char)
    ensures
        escaped_tag(a + b) == escaped_tag(a) + escaped_tag(b),
        escaped_tag(seq![c]) == (if c == ',' || c == ' ' || c == '=' {
            seq!['\\', c]
        } else {
            seq![c]
        }),
        escaped_tag(seq![]) == Seq::<char>::empty(),
{
    text::law_replaced(a, b, tag_char(), c);
}

/// The contents of a string field are written character by character, and only
/// quotes and line breaks are written otherwise than they are.
pub proof fn law_escaped_string(a: Seq<char>, b: Seq<char>, c: char)
    ensures
        escaped_string(a + b) == escaped_string(a) + escaped_string(b),
        escaped_string(seq![c]) == (if c == '"' {
            seq!['\\', '"']
        } else if c == '\n' {
            seq!['\\', 'n']
        } else {
            seq![c]
        }),
        escaped_string(seq![]) == Seq::<char>::empty(),
{
    text::law_replaced(a, b, string_char(), c);
}

/// What tag `i` is written as; a tag without a value is not.
pub open spec fn tag_at(tags: Seq<(Seq<char>, Seq<char>)>) -> spec_fn(int) -> Option<Seq<char>> {
    |i: int|
        if tags[i].1.len() == 0 {
            None
        } else {
            Some(escaped_tag(tags[i].0) + seq!['='] + escaped_tag(tags[i].1))
        }
}

/// Every tag with a value is written, in order, as its name, an equals sign and
/// its value, and no other.
pub proof fn law_tags_written(tags: Seq<(Seq<char>, Seq<char>)>)
    ensures
        lists::gathers(tag_at(tags), 0, tags.len() as int, tag_texts(tags)),
{
    lemma_tags_written(tags, tags.len());
    assert(tags.take(tags.len() as int) == tags);
}

proof fn lemma_tags_written(tags: Seq<(Seq<char>, Seq<char>)>, n: nat)
    requires
        n <= tags.len(),
    ensures
        lists::gathers(tag_at(tags), 0, n as int, tag_texts(tags.take(n as int))),
    decreases n,
{
    reveal_strlit("=");
    assert("="@ == seq!['=']);
    if n == 0 {
        lists::lemma_gathers_nothing(tag_at(tags), 0, 0);
        assert(tag_texts(tags.take(0)) == Seq::<Seq<char>>::empty());
    } else {
        lemma_tags_written(tags, (n - 1) as nat);
        assert(tags.take(n as int).drop_last() == tags.take(n - 1));
        lists::lemma_gathers_next(tag_at(tags), 0, n - 1, tag_texts(tags.take(n - 1)));
    }
}

/// How a field of each kind is written.
pub proof fn law_field_text(name: Seq<char>, i: i64, x: json::RealView, t: Seq<char>)
    ensures
        field_text(name, JsonView::Null) is None,
        field_text(name, JsonView::Bool(true)) == Some(name + seq!['=', 't']),
        field_text(name, JsonView::Bool(false)) == Some(name + seq!['=', 'f']),
        field_text(name, JsonView::Number(NumberView::Int(i))) == Some(
            name + seq!['='] + text::int_text(i as int) + seq!['i'],
        ),
        field_text(name, JsonView::Number(NumberView::Real(x))) == Some(
            name + seq!['='] + x.plain,
        ),
        field_text(name, JsonView::Text(t)) == Some(
            name + seq!['=', '"'] + escaped_string(t) + seq!['"'],
        ),
{
    reveal_strlit("=");
    reveal_strlit("t");
    reveal_strlit("f");
    reveal_strlit("i");
    reveal_strlit("=\"");
    reveal_strlit("\"");
    assert("="@ == seq!['='] && "i"@ == seq!['i'] && "=\""@ == seq!['=', '"'] && "\""@ == seq!['"']);
    assert(name + "="@ + "t"@ == name + seq!['=', 't']);
    assert(name + "="@ + "f"@ == name + seq!['=', 'f']);
}

/// An array or an object is written as the string that its compact text is.
pub proof fn law_nested_field_text(name: Seq<char>, j: JsonView)
    requires
        j is Array || j is Object,
    ensures
        field_text(name, j) == field_text(name, JsonView::Text(json::json_text(j))),
{
}

/// What field `i` is written as.
pub open spec fn field_at(fields: Seq<(Seq<char>, JsonView)>) -> spec_fn(int) -> Option<Seq<char>> {
    |i: int| field_text(fields[i].0, fields[i].1)
}

/// Every field that is written stands in the line, in order, and no other.
pub proof fn law_fields_written(fields: Seq<(Seq<char>, JsonView)>)
    ensures
        lists::gathers(field_at(fields), 0, fields.len() as int, field_texts(fields)),
{
    lemma_fields_written(fields, fields.len());
    assert(fields.take(fields.len() as int) == fields);
}

proof fn lemma_fields_written(fields: Seq<(Seq<char>, JsonView)>, n: nat)
    requires
        n <= fields.len(),
    ensures
        lists::gathers(field_at(fields), 0, n as int, field_texts(fields.take(n as int))),
    decreases n,
{
    if n == 0 {
        lists::lemma_gathers_nothing(field_at(fields), 0, 0);
        assert(field_texts(fields.take(0)) == Seq::<Seq<char>>::empty());
    } else {
        lemma_fields_written(fields, (n - 1) as nat);
        assert(fields.take(n as int).drop_last() == fields.take(n - 1));
        lists::lemma_gathers_next(field_at(fields), 0, n - 1, field_texts(fields.take(n - 1)));
    }
}

/// A line is the table and its tags, a space, the fields with commas between
/// them, and then, where there is a time, a space and the time.
pub proof fn law_line(
    table: Seq<char>,
    tags: Seq<(Seq<char>, Seq<char>)>,
    fields: Seq<(Seq<char>, JsonView)>,
    ts_ns: Option<i64>,
)
    ensures
        line(table, tags, fields, ts_ns) matches Some(l) ==> l == escaped_tag(table) + (
        if tags.len() == 0 {
            seq![]
        } else {
            seq![','] + text::join(tag_texts(tags), seq![','])
        }) + seq![' '] + text::join(field_texts(fields), seq![',']) + (match ts_ns {
            Some(ns) => seq![' '] + text::int_text(ns as int),
            None => seq![],
        }),
{
    reveal_strlit(",");
    reveal_strlit(" ");
    assert(","@ == seq![','] && " "@ == seq![' ']);
    match line(table, tags, fields, ts_ns) {
        Some(l) => {
            let tagged = if tags.len() == 0 {
                Seq::<char>::empty()
            } else {
                seq![','] + text::join(tag_texts(tags), seq![','])
            };
            let timed = match ts_ns {
                Some(ns) => seq![' '] + text::int_text(ns as int),
                None => Seq::<char>::empty(),
            };
            assert(line_head(table, tags) == escaped_tag(table) + tagged);
            assert(l == escaped_tag(table) + tagged + seq![' '] + text::join(
                field_texts(fields),
                seq![','],
            ) + timed);
        },
        None => {},
    }
}

/// The path of an address is what stands before its first question mark, and
/// its query what stands behind it.
pub proof fn law_path_and_query(front: Seq<char>, back: Seq<char>)
    requires
        !front.contains('?'),
    ensures
        path(front) == front,
        query(front) == Seq::<char>::empty(),
        path(front + seq!['?'] + back) == front,
        query(front + seq!['?'] + back) == back,
{
    assert forall|i: int| 0 <= i < front.len() implies front[i] != '?' by {
        assert(front.contains(front[i]));
    }
    text::lemma_place_of(front, '?', front.len() as int);
    assert(front.take(front.len() as int) == front);
    let whole = front + seq!['?'] + back;
    assert forall|i: int| 0 <= i < front.len() implies whole[i] != '?' by {
        assert(whole[i] == front[i]);
    }
    text::lemma_place_of(whole, '?', front.len() as int);
    assert(whole.take(front.len() as int) == front);
    assert(whole.skip(front.len() as int + 1) == back);
}

/// The path that lines go to: that of the server with `/imp` behind it, without
/// a second slash, and as it is where it ends so already; a final `/exec` makes
/// no difference.
pub proof fn law_endpoint_path(base: Seq<char>, other: Seq<char>)
    ensures
        ({
            let p = path(base);
            let sent = path(endpoint(base));
            &&& path(other) == p + "/exec"@ && !text::ends_with(p, "/exec"@) ==> path(
                endpoint(other),
            ) == sent
            &&& !text::ends_with(p, "/exec"@) && text::ends_with(p, "/imp"@) ==> sent == p
            &&& !text::ends_with(p, "/exec"@) && text::ends_with(p, "/"@) ==> sent == p + "imp"@
            &&& !text::ends_with(p, "/exec"@) && !text::ends_with(p, "/imp"@) && !text::ends_with(
                p,
                "/"@,
            ) ==> sent == p + "/imp"@
        }),
{
    reveal_strlit("/exec");
    reveal_strlit("/imp");
    reveal_strlit("/");
    let p = path(base);
    lemma_endpoint_parts(base);
    lemma_endpoint_parts(other);
    if path(other) == p + "/exec"@ {
        text::law_parts(p, "/exec"@, seq![]);
        assert((p + "/exec"@).take(p.len() as int) == p);
    }
    if text::ends_with(p, "/imp"@) && text::ends_with(p, "/"@) {
        assert(p.skip(p.len() - 4)[3] == 'p');
        assert(p.skip(p.len() - 1)[0] == '/');
        assert(p.last() == 'p' && p.last() == '/');
    }
}

/// Parameter `i` of an address, unless it is empty or names the precision.
pub open spec fn param_at(list: Seq<Seq<char>>) -> spec_fn(int) -> Option<Seq<char>> {
    |i: int|
        if list[i].len() == 0 || text::starts_with(list[i], "precision="@) {
            None
        } else {
            Some(list[i])
        }
}

/// Every parameter of the server's address is kept, in order, but for empty ones
/// and those that name the precision.
pub proof fn law_params_kept(list: Seq<Seq<char>>)
    ensures
        lists::gathers(param_at(list), 0, list.len() as int, kept_params(list)),
{
    lemma_params_kept(list, list.len());
    assert(list.take(list.len() as int) == list);
}

proof fn lemma_params_kept(list: Seq<Seq<char>>, n: nat)
    requires
        n <= list.len(),
    ensures
        lists::gathers(param_at(list), 0, n as int, kept_params(list.take(n as int))),
    decreases n,
{
    if n == 0 {
        lists::lemma_gathers_nothing(param_at(list), 0, 0);
        assert(kept_params(list.take(0)) == Seq::<Seq<char>>::empty());
    } else {
        lemma_params_kept(list, (n - 1) as nat);
        assert(list.take(n as int).drop_last() == list.take(n - 1));
        lists::lemma_gathers_next(param_at(list), 0, n - 1, kept_params(list.take(n - 1)));
    }
}

/// What lines are written to is put together of the path and of the parameters:
/// those of the server's address that are kept, and the precision at the end.
pub proof fn law_endpoint_query(base: Seq<char>)
    ensures
        endpoint(base) == path(endpoint(base)) + seq!['?'] + text::join(
            kept_params(text::pieces(query(base), '&')).push("precision=ns"@),
            seq!['&'],
        ),
{
    reveal_strlit("?");
    reveal_strlit("&");
    assert("?"@ == seq!['?'] && "&"@ == seq!['&']);
    lemma_endpoint_parts(base);
}

}
