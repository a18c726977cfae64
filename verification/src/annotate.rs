//! Recording an annotation: the request and record types, and the plan of
//! everything one annotation writes.
//!
//! An annotation copies a source media file into the save directory under a
//! fresh name — a generated identifier plus the source's lowercased
//! extension — and appends one JSON line describing the copy to the label
//! log. This module computes all names, paths and the log line up front;
//! the shell around the library then only executes the plan.

use vstd::prelude::*;
use crate::jsonl::{esc_char, json_escape, escape_string, is_number_text, is_number_char,
    lit_body_len, json_unescape, strip_prefix, lemma_strip_prefix, lemma_lit_body_len_escape,
    lemma_escape_round_trip};
use crate::pathname::{is_sep, ext_of, join, join_path, lower_of, to_lowercase_string,
    extension_of, file_name_of, sep_fn, dot_fn,
    lemma_last_index_where_unique, first_index_where, lemma_first_index_where_unique};

verus! {

/// An interval between two positions, each carried as the JSON number text
/// its sender rendered it to.
#[derive(Debug)]
pub struct Range {
    pub start: String,
    pub end: String,
}

pub struct RangeView {
    pub start: Seq<char>,
    pub end: Seq<char>,
}

impl View for Range {
    type V = RangeView;

    open spec fn view(&self) -> RangeView {
        RangeView { start: self.start@, end: self.end@ }
    }
}

/// A request to record one annotation of the file at `file_path`.
#[derive(Debug)]
pub struct AnnotationData {
    pub file_path: String,
    pub entire: Range,
    pub point: Range,
}

pub struct AnnotationDataView {
    pub file_path: Seq<char>,
    pub entire: RangeView,
    pub point: RangeView,
}

impl View for AnnotationData {
    type V = AnnotationDataView;

    open spec fn view(&self) -> AnnotationDataView {
        AnnotationDataView { file_path: self.file_path@, entire: self.entire@, point: self.point@ }
    }
}

/// The persisted record: the copied file's name — not the source path —
/// and the two ranges as they arrived.
#[derive(Debug)]
pub struct Label {
    pub file: String,
    pub entire: Range,
    pub point: Range,
}

pub struct LabelView {
    pub file: Seq<char>,
    pub entire: RangeView,
    pub point: RangeView,
}

impl View for Label {
    type V = LabelView;

    open spec fn view(&self) -> LabelView {
        LabelView { file: self.file@, entire: self.entire@, point: self.point@ }
    }
}

/// The serialized form of a range: `{"start":S,"end":E}` with the number
/// texts embedded verbatim.
pub open spec fn range_json(r: RangeView) -> Seq<char> {
    "{\"start\":"@ + r.start + ",\"end\":"@ + r.end + "}"@
}

/// The serialized form of a label: one JSON object holding the copied
/// file's name, escaped as a JSON string, and both ranges.
pub open spec fn label_json(l: LabelView) -> Seq<char> {
    "{\"file\":\""@ + json_escape(l.file) + "\",\"entire\":"@ + range_json(l.entire)
        + ",\"point\":"@ + range_json(l.point) + "}"@
}

fn append_range_json(out: &mut String, r: &Range)
    ensures
        final(out)@ == old(out)@ + range_json(r@),
{
    out.append("{\"start\":");
    out.append(r.start.as_str());
    out.append(",\"end\":");
    out.append(r.end.as_str());
    out.append("}");
    proof {
        assert(out@ =~= old(out)@ + range_json(r@));
    }
}

/// Serializes a label to the one line appended to the log for it.
pub fn label_json_line(label: &Label) -> (r: String)
    ensures
        r@ == label_json(label@),
{
    let mut out = String::new();
    out.append("{\"file\":\"");
    let esc = escape_string(label.file.as_str());
    out.append(esc.as_str());
    out.append("\",\"entire\":");
    append_range_json(&mut out, &label.entire);
    out.append(",\"point\":");
    append_range_json(&mut out, &label.point);
    out.append("}");
    proof {
        assert(out@ =~= label_json(label@));
    }
    out
}

/// Why an annotation cannot be recorded.
#[derive(Clone, Copy, Debug, PartialEq, Eq, Structural)]
pub enum AnnotateError {
    /// The source path has no file extension.
    NoExtension,
}

/// Everything one annotation writes, computed before any file is touched:
/// where the save directory is, what the copy is called and where it goes,
/// which file the log is, and the line appended to it.
#[derive(Debug)]
pub struct AnnotationPlan {
    pub save_root_dir: String,
    pub copied_file_name: String,
    pub copied_file_path: String,
    pub labels_file_path: String,
    pub log_line: String,
}

pub struct AnnotationPlanView {
    pub save_root_dir: Seq<char>,
    pub copied_file_name: Seq<char>,
    pub copied_file_path: Seq<char>,
    pub labels_file_path: Seq<char>,
    pub log_line: Seq<char>,
}

impl View for AnnotationPlan {
    type V = AnnotationPlanView;

    open spec fn view(&self) -> AnnotationPlanView {
        AnnotationPlanView {
            save_root_dir: self.save_root_dir@,
            copied_file_name: self.copied_file_name@,
            copied_file_path: self.copied_file_path@,
            labels_file_path: self.labels_file_path@,
            log_line: self.log_line@,
        }
    }
}

/// The fixed name of the save directory below the application data
/// directory.
pub open spec fn save_dir_name() -> Seq<char> {
    "sound-annotation"@
}

/// The fixed name of the label log inside the save directory.
pub open spec fn labels_file_name() -> Seq<char> {
    "labels.jsonl"@
}

/// How a finished plan relates to the request it answers, for the stem the
/// copied file was named with: the name is the stem, a dot and the
/// lowercased source extension; both files live in the save directory; and
/// the log line is exactly the label serialized with the copied file's
/// name and the untouched ranges.
pub open spec fn plan_obeys(
    p: AnnotationPlanView,
    app_data_dir: Seq<char>,
    d: AnnotationDataView,
    stem: Seq<char>,
) -> bool {
    &&& ext_of(d.file_path) is Some
    &&& p.save_root_dir == join(app_data_dir, save_dir_name())
    &&& p.copied_file_name == stem + seq!['.'] + lower_of(ext_of(d.file_path)->0)
    &&& p.copied_file_path == join(p.save_root_dir, p.copied_file_name)
    &&& p.labels_file_path == join(p.save_root_dir, labels_file_name())
    &&& p.log_line == label_json(LabelView { file: p.copied_file_name, entire: d.entire, point: d.point })
}

/// Lays out one annotation for a given stem: fails exactly when the source
/// path has no extension, and otherwise fills the plan as `plan_obeys`
/// says.
pub fn build_plan(app_data_dir: &str, data: AnnotationData, stem: &str) -> (r: Result<
    AnnotationPlan,
    AnnotateError,
>)
    ensures
        r matches Ok(p) ==> plan_obeys(p@, app_data_dir@, data@, stem@),
        r matches Err(e) ==> e == AnnotateError::NoExtension && ext_of(data.file_path@) is None,
        r is Ok <==> ext_of(data.file_path@) is Some,
{
    proof {
        reveal_strlit(".");
    }
    let ext_raw = match extension_of(data.file_path.as_str()) {
        Some(e) => e,
        None => {
            return Err(AnnotateError::NoExtension);
        },
    };
    let ext = to_lowercase_string(ext_raw.as_str());
    let root = join_path(app_data_dir, "sound-annotation");
    let mut name = String::new();
    name.append(stem);
    name.append(".");
    name.append(ext.as_str());
    proof {
        assert(name@ =~= stem@ + seq!['.'] + ext@);
    }
    let dest = join_path(root.as_str(), name.as_str());
    let labels = join_path(root.as_str(), "labels.jsonl");
    let label = Label { file: name, entire: data.entire, point: data.point };
    let line = label_json_line(&label);
    Ok(
        AnnotationPlan {
            save_root_dir: root,
            copied_file_name: label.file,
            copied_file_path: dest,
            labels_file_path: labels,
            log_line: line,
        },
    )
}

/// A position where the hyphenated identifier form carries a hyphen.
pub open spec fn is_hyphen_pos(i: int) -> bool {
    i == 8 || i == 13 || i == 18 || i == 23
}

/// A lowercase hexadecimal digit.
pub open spec fn is_lower_hex(c: char) -> bool {
    ('0' <= c && c <= '9') || ('a' <= c && c <= 'f')
}

/// The hyphenated lowercase-hex rendering of a 128-bit identifier:
/// thirty-six characters, hyphens at the four fixed positions, hex digits
/// everywhere else.
pub open spec fn is_uuid_text(s: Seq<char>) -> bool {
    &&& s.len() == 36
    &&& forall|i: int| 0 <= i < 36 && is_hyphen_pos(i) ==> s[i] == '-'
    &&& forall|i: int| 0 <= i < 36 && !is_hyphen_pos(i) ==> is_lower_hex(#[trigger] s[i])
}

/// Relies on uuid::Uuid::new_v4 and its Display form: a fresh random
/// 128-bit identifier, rendered hyphenated in lowercase hex. Nothing is
/// assumed about which identifier comes back, only about its shape.
#[verifier::external_body]
fn new_uuid_string() -> (r: String)
    ensures
        is_uuid_text(r@),
{
    uuid::Uuid::new_v4().to_string()
}

/// Plans one annotation: generates a fresh identifier and lays everything
/// out for it. Fails exactly when the source path has no extension.
pub fn plan_annotation(app_data_dir: &str, data: AnnotationData) -> (r: Result<
    AnnotationPlan,
    AnnotateError,
>)
    ensures
        r matches Ok(p) ==> exists|stem: Seq<char>|
            is_uuid_text(stem) && plan_obeys(p@, app_data_dir@, data@, stem),
        r matches Err(e) ==> e == AnnotateError::NoExtension && ext_of(data.file_path@) is None,
        r is Ok <==> ext_of(data.file_path@) is Some,
{
    let stem = new_uuid_string();
    let ghost stem_view = stem@;
    let r = build_plan(app_data_dir, data, stem.as_str());
    proof {
        match &r {
            Ok(p) => {
                assert(is_uuid_text(stem_view) && plan_obeys(p@, app_data_dir@, data@, stem_view));
            },
            Err(_) => {},
        }
    }
    r
}

/// For a nonempty stem free of dots and separators, and an extension free
/// of dots and separators, the extension of the composed name `stem.ext`
/// is exactly `ext`: the copied file carries the extension the plan gave
/// it.
pub proof fn lemma_file_name_extension(stem: Seq<char>, ext: Seq<char>)
    requires
        stem.len() > 0,
        forall|i: int| 0 <= i < stem.len() ==> #[trigger] stem[i] != '.' && !is_sep(stem[i]),
        forall|i: int| 0 <= i < ext.len() ==> #[trigger] ext[i] != '.' && !is_sep(ext[i]),
    ensures
        ext_of(stem + seq!['.'] + ext) == Some(ext),
{
    let p = stem + seq!['.'] + ext;
    let m = stem.len() as int;
    assert forall|j: int| 0 <= j < p.len() implies !is_sep(#[trigger] p[j]) by {
        if j < m {
            assert(p[j] == stem[j]);
        } else if j == m {
            assert(p[j] == '.');
        } else {
            assert(p[j] == ext[j - m - 1]);
        }
    }
    lemma_last_index_where_unique(p, sep_fn(), -1);
    assert(file_name_of(p) =~= p);
    assert forall|j: int| m < j < p.len() implies #[trigger] p[j] != '.' by {
        assert(p[j] == ext[j - m - 1]);
    }
    assert(p[m] == '.');
    lemma_last_index_where_unique(p, dot_fn(), m);
    assert(p[0] == stem[0]);
    assert(p != seq!['.', '.']);
    assert(ext_of(p) == Some(p.skip(m + 1)));
    assert(p.skip(m + 1) =~= ext);
}

/// A generated identifier is a fit stem for `lemma_file_name_extension`:
/// hex digits and hyphens are neither dots nor separators.
pub proof fn lemma_uuid_name_extension(stem: Seq<char>, ext: Seq<char>)
    requires
        is_uuid_text(stem),
        forall|i: int| 0 <= i < ext.len() ==> #[trigger] ext[i] != '.' && !is_sep(ext[i]),
    ensures
        ext_of(stem + seq!['.'] + ext) == Some(ext),
{
    assert forall|i: int| 0 <= i < stem.len() implies #[trigger] stem[i] != '.' && !is_sep(
        stem[i],
    ) by {
        if is_hyphen_pos(i) {
            assert(stem[i] == '-');
        } else {
            assert(is_lower_hex(stem[i]));
        }
    }
    lemma_file_name_extension(stem, ext);
}

/// Distinct identifiers name distinct copied files, whatever the
/// extensions: annotations planned with different stems never collide.
pub proof fn lemma_distinct_stems_distinct_names(
    s1: Seq<char>,
    e1: Seq<char>,
    s2: Seq<char>,
    e2: Seq<char>,
)
    requires
        is_uuid_text(s1),
        is_uuid_text(s2),
        s1 != s2,
    ensures
        s1 + seq!['.'] + e1 != s2 + seq!['.'] + e2,
{
    if s1 + seq!['.'] + e1 == s2 + seq!['.'] + e2 {
        assert forall|i: int| 0 <= i < 36 implies s1[i] == s2[i] by {
            assert((s1 + seq!['.'] + e1)[i] == s1[i]);
            assert((s2 + seq!['.'] + e2)[i] == s2[i]);
        }
        assert(s1 =~= s2);
    }
}

/// Text without a line terminator.
pub open spec fn no_newline(s: Seq<char>) -> bool {
    forall|i: int| 0 <= i < s.len() ==> s[i] != '\n'
}

proof fn lemma_no_newline_concat(a: Seq<char>, b: Seq<char>)
    requires
        no_newline(a),
        no_newline(b),
    ensures
        no_newline(a + b),
{
    assert forall|i: int| 0 <= i < (a + b).len() implies (a + b)[i] != '\n' by {
        if i < a.len() {
            assert((a + b)[i] == a[i]);
        } else {
            assert((a + b)[i] == b[i - a.len()]);
        }
    }
}

proof fn lemma_escape_no_newline(s: Seq<char>)
    ensures
        no_newline(json_escape(s)),
    decreases s.len(),
{
    if s.len() > 0 {
        let c = s[0];
        lemma_escape_no_newline(s.drop_first());
        assert(no_newline(esc_char(c))) by {
            crate::jsonl::lemma_char_nonneg(c);
        }
        lemma_no_newline_concat(esc_char(c), json_escape(s.drop_first()));
    }
}

/// One annotation, one log line: a serialized label contains no line
/// terminator, so appending it and a single terminator grows the log by
/// exactly one line.
pub proof fn lemma_log_line_is_single_line(l: LabelView)
    requires
        is_number_text(l.entire.start),
        is_number_text(l.entire.end),
        is_number_text(l.point.start),
        is_number_text(l.point.end),
    ensures
        no_newline(label_json(l)),
{
    reveal_strlit("{\"file\":\"");
    reveal_strlit("\",\"entire\":");
    reveal_strlit(",\"point\":");
    reveal_strlit("{\"start\":");
    reveal_strlit(",\"end\":");
    reveal_strlit("}");
    lemma_escape_no_newline(l.file);
    assert(no_newline(l.entire.start));
    assert(no_newline(l.entire.end));
    assert(no_newline(l.point.start));
    assert(no_newline(l.point.end));
    lemma_no_newline_concat("{\"start\":"@, l.entire.start);
    lemma_no_newline_concat("{\"start\":"@ + l.entire.start, ",\"end\":"@);
    lemma_no_newline_concat("{\"start\":"@ + l.entire.start + ",\"end\":"@, l.entire.end);
    lemma_no_newline_concat("{\"start\":"@ + l.entire.start + ",\"end\":"@ + l.entire.end, "}"@);
    lemma_no_newline_concat("{\"start\":"@, l.point.start);
    lemma_no_newline_concat("{\"start\":"@ + l.point.start, ",\"end\":"@);
    lemma_no_newline_concat("{\"start\":"@ + l.point.start + ",\"end\":"@, l.point.end);
    lemma_no_newline_concat("{\"start\":"@ + l.point.start + ",\"end\":"@ + l.point.end, "}"@);
    lemma_no_newline_concat("{\"file\":\""@, json_escape(l.file));
    lemma_no_newline_concat("{\"file\":\""@ + json_escape(l.file), "\",\"entire\":"@);
    lemma_no_newline_concat(
        "{\"file\":\""@ + json_escape(l.file) + "\",\"entire\":"@,
        range_json(l.entire),
    );
    lemma_no_newline_concat(
        "{\"file\":\""@ + json_escape(l.file) + "\",\"entire\":"@ + range_json(l.entire),
        ",\"point\":"@,
    );
    lemma_no_newline_concat(
        "{\"file\":\""@ + json_escape(l.file) + "\",\"entire\":"@ + range_json(l.entire)
            + ",\"point\":"@,
        range_json(l.point),
    );
    lemma_no_newline_concat(
        "{\"file\":\""@ + json_escape(l.file) + "\",\"entire\":"@ + range_json(l.entire)
            + ",\"point\":"@ + range_json(l.point),
        "}"@,
    );
}

/// The comma predicate as a value.
pub open spec fn comma_fn() -> spec_fn(char) -> bool {
    |c: char| c == ','
}

/// The closing-brace predicate as a value.
pub open spec fn rbrace_fn() -> spec_fn(char) -> bool {
    |c: char| c == '}'
}

/// Reads a number text up to (not including) the first stop character:
/// the number read and what follows it, stop character first.
pub open spec fn parse_number_until(s: Seq<char>, stop: spec_fn(char) -> bool) -> Option<
    (Seq<char>, Seq<char>),
> {
    let k = first_index_where(s, stop);
    if k >= 1 && is_number_text(s.take(k)) {
        Some((s.take(k), s.skip(k)))
    } else {
        None
    }
}

/// Reads a serialized range off the front of `s`: the range and what
/// follows it.
pub open spec fn parse_range(s: Seq<char>) -> Option<(RangeView, Seq<char>)> {
    match strip_prefix(s, "{\"start\":"@) {
        None => None,
        Some(s1) => match parse_number_until(s1, comma_fn()) {
            None => None,
            Some((start, s2)) => match strip_prefix(s2, ",\"end\":"@) {
                None => None,
                Some(s3) => match parse_number_until(s3, rbrace_fn()) {
                    None => None,
                    Some((end, s4)) => match strip_prefix(s4, "}"@) {
                        None => None,
                        Some(s5) => Some((RangeView { start, end }, s5)),
                    },
                },
            },
        },
    }
}

/// Reads a whole log line back into a label: the inverse of `label_json`.
pub open spec fn parse_label(line: Seq<char>) -> Option<LabelView> {
    match strip_prefix(line, "{\"file\":\""@) {
        None => None,
        Some(s0) => {
            let k = lit_body_len(s0);
            if k < 0 {
                None
            } else {
                match json_unescape(s0.take(k)) {
                    None => None,
                    Some(file) => match strip_prefix(s0.skip(k), "\",\"entire\":"@) {
                        None => None,
                        Some(s1) => match parse_range(s1) {
                            None => None,
                            Some((entire, s2)) => match strip_prefix(s2, ",\"point\":"@) {
                                None => None,
                                Some(s3) => match parse_range(s3) {
                                    None => None,
                                    Some((point, s4)) => if s4 == "}"@ {
                                        Some(LabelView { file, entire, point })
                                    } else {
                                        None
                                    },
                                },
                            },
                        },
                    },
                }
            }
        },
    }
}

proof fn lemma_parse_number(num: Seq<char>, stop: spec_fn(char) -> bool, tail: Seq<char>)
    requires
        is_number_text(num),
        forall|i: int| 0 <= i < num.len() ==> !stop(num[i]),
        tail.len() > 0,
        stop(tail[0]),
    ensures
        parse_number_until(num + tail, stop) == Some((num, tail)),
{
    let s = num + tail;
    assert(s[num.len() as int] == tail[0]);
    assert forall|j: int| 0 <= j < num.len() implies !stop(s[j]) by {
        assert(s[j] == num[j]);
    }
    lemma_first_index_where_unique(s, stop, num.len() as int);
    assert(s.take(num.len() as int) =~= num);
    assert(s.skip(num.len() as int) =~= tail);
}

proof fn lemma_parse_range(r: RangeView, tail: Seq<char>)
    requires
        is_number_text(r.start),
        is_number_text(r.end),
    ensures
        parse_range(range_json(r) + tail) == Some((r, tail)),
{
    reveal_strlit("{\"start\":");
    reveal_strlit(",\"end\":");
    reveal_strlit("}");
    let t2 = ",\"end\":"@ + (r.end + ("}"@ + tail));
    let t1 = r.start + t2;
    assert(range_json(r) + tail =~= "{\"start\":"@ + t1);
    lemma_strip_prefix("{\"start\":"@, t1);
    assert(t2[0] == ',');
    assert forall|i: int| 0 <= i < r.start.len() implies !(comma_fn()(r.start[i])) by {
        assert(is_number_char(r.start[i]));
    }
    lemma_parse_number(r.start, comma_fn(), t2);
    let t3 = r.end + ("}"@ + tail);
    lemma_strip_prefix(",\"end\":"@, t3);
    assert(("}"@ + tail)[0] == '}');
    assert forall|i: int| 0 <= i < r.end.len() implies !(rbrace_fn()(r.end[i])) by {
        assert(is_number_char(r.end[i]));
    }
    lemma_parse_number(r.end, rbrace_fn(), "}"@ + tail);
    lemma_strip_prefix("}"@, tail);
    assert(parse_range(range_json(r) + tail) == Some((RangeView { start: r.start, end: r.end }, tail)));
    assert(RangeView { start: r.start, end: r.end } == r);
}

/// What a log line says, it says uniquely: a line written for a label reads
/// back as exactly that label, file name and both ranges included.
pub proof fn lemma_label_line_round_trip(l: LabelView)
    requires
        is_number_text(l.entire.start),
        is_number_text(l.entire.end),
        is_number_text(l.point.start),
        is_number_text(l.point.end),
    ensures
        parse_label(label_json(l)) == Some(l),
{
    reveal_strlit("{\"file\":\"");
    reveal_strlit("\",\"entire\":");
    reveal_strlit(",\"point\":");
    reveal_strlit("}");
    let esc = json_escape(l.file);
    let u = range_json(l.entire) + (",\"point\":"@ + (range_json(l.point) + "}"@));
    let t = "\",\"entire\":"@ + u;
    let s0 = esc + t;
    assert(label_json(l) =~= "{\"file\":\""@ + s0);
    lemma_strip_prefix("{\"file\":\""@, s0);
    assert(t[0] == '"');
    lemma_lit_body_len_escape(l.file, t);
    assert(lit_body_len(s0) == esc.len());
    assert(s0.take(esc.len() as int) =~= esc);
    assert(s0.skip(esc.len() as int) =~= t);
    lemma_escape_round_trip(l.file);
    lemma_strip_prefix("\",\"entire\":"@, u);
    lemma_parse_range(l.entire, ",\"point\":"@ + (range_json(l.point) + "}"@));
    lemma_strip_prefix(",\"point\":"@, range_json(l.point) + "}"@);
    lemma_parse_range(l.point, "}"@);
    assert(parse_label(label_json(l)) == Some(LabelView { file: l.file, entire: l.entire, point: l.point }));
    assert(LabelView { file: l.file, entire: l.entire, point: l.point } == l);
}

/// Two labels never serialize to the same line: what `lemma_label_line_round_trip`
/// reads back pins the line's meaning down.
pub proof fn lemma_label_json_injective(l1: LabelView, l2: LabelView)
    requires
        is_number_text(l1.entire.start),
        is_number_text(l1.entire.end),
        is_number_text(l1.point.start),
        is_number_text(l1.point.end),
        is_number_text(l2.entire.start),
        is_number_text(l2.entire.end),
        is_number_text(l2.point.start),
        is_number_text(l2.point.end),
        label_json(l1) == label_json(l2),
    ensures
        l1 == l2,
{
    lemma_label_line_round_trip(l1);
    lemma_label_line_round_trip(l2);
}

/// Annotations that copy to distinct file names write distinct log lines:
/// no two concurrent annotations with distinct identifiers can produce the
/// same line.
pub proof fn lemma_distinct_names_distinct_lines(l1: LabelView, l2: LabelView)
    requires
        is_number_text(l1.entire.start),
        is_number_text(l1.entire.end),
        is_number_text(l1.point.start),
        is_number_text(l1.point.end),
        is_number_text(l2.entire.start),
        is_number_text(l2.entire.end),
        is_number_text(l2.point.start),
        is_number_text(l2.point.end),
        l1.file != l2.file,
    ensures
        label_json(l1) != label_json(l2),
{
    if label_json(l1) == label_json(l2) {
        lemma_label_json_injective(l1, l2);
    }
}

/// The save directory itself: `sound-annotation` below the application
/// data directory. Opening it in a file browser is the shell's business;
/// computing the path never fails, whether or not the directory exists.
pub fn save_root_dir_path(app_data_dir: &str) -> (r: String)
    ensures
        r@ == join(app_data_dir@, save_dir_name()),
{
    join_path(app_data_dir, "sound-annotation")
}

} // verus!
