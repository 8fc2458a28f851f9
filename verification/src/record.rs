//! The locale record: fourteen named string fields, one per POSIX locale
//! category, with a verified parser from `KEY=VALUE` lines and a verified
//! serializer back to locale-configuration text.
use crate::text::{
    find_char, lacks_char, lemma_lines_of_step, lemma_no_occurrence, lemma_split_at_first,
    lines_of, prefix_to, str_equal, suffix_from,
};
use vstd::prelude::*;

verus! {

/// A locale record: one string per POSIX locale category, plus the
/// umbrella `LC_ALL` field. Fields default to the empty string.
#[derive(Debug)]
pub struct Locale {
    pub lang: String,
    pub lc_ctype: String,
    pub lc_numeric: String,
    pub lc_time: String,
    pub lc_collate: String,
    pub lc_monetary: String,
    pub lc_messages: String,
    pub lc_paper: String,
    pub lc_name: String,
    pub lc_address: String,
    pub lc_telephone: String,
    pub lc_measurement: String,
    pub lc_identification: String,
    pub lc_all: String,
}

/// The mathematical model of a locale record: the fourteen field values
/// as character sequences.
pub ghost struct LocaleModel {
    pub lang: Seq<char>,
    pub lc_ctype: Seq<char>,
    pub lc_numeric: Seq<char>,
    pub lc_time: Seq<char>,
    pub lc_collate: Seq<char>,
    pub lc_monetary: Seq<char>,
    pub lc_messages: Seq<char>,
    pub lc_paper: Seq<char>,
    pub lc_name: Seq<char>,
    pub lc_address: Seq<char>,
    pub lc_telephone: Seq<char>,
    pub lc_measurement: Seq<char>,
    pub lc_identification: Seq<char>,
    pub lc_all: Seq<char>,
}

impl View for Locale {
    type V = LocaleModel;

    open spec fn view(&self) -> LocaleModel {
        LocaleModel {
            lang: self.lang@,
            lc_ctype: self.lc_ctype@,
            lc_numeric: self.lc_numeric@,
            lc_time: self.lc_time@,
            lc_collate: self.lc_collate@,
            lc_monetary: self.lc_monetary@,
            lc_messages: self.lc_messages@,
            lc_paper: self.lc_paper@,
            lc_name: self.lc_name@,
            lc_address: self.lc_address@,
            lc_telephone: self.lc_telephone@,
            lc_measurement: self.lc_measurement@,
            lc_identification: self.lc_identification@,
            lc_all: self.lc_all@,
        }
    }
}

/// The model of a record whose fields are all empty.
pub open spec fn empty_model() -> LocaleModel {
    LocaleModel {
        lang: Seq::empty(),
        lc_ctype: Seq::empty(),
        lc_numeric: Seq::empty(),
        lc_time: Seq::empty(),
        lc_collate: Seq::empty(),
        lc_monetary: Seq::empty(),
        lc_messages: Seq::empty(),
        lc_paper: Seq::empty(),
        lc_name: Seq::empty(),
        lc_address: Seq::empty(),
        lc_telephone: Seq::empty(),
        lc_measurement: Seq::empty(),
        lc_identification: Seq::empty(),
        lc_all: Seq::empty(),
    }
}

/// A field value with every leading and trailing double quote removed.
pub open spec fn trim_quotes(s: Seq<char>) -> Seq<char>
    decreases s.len(),
{
    if s.len() == 0 {
        s
    } else if s[0] == '"' {
        trim_quotes(s.drop_first())
    } else if s[s.len() - 1] == '"' {
        trim_quotes(s.drop_last())
    } else {
        s
    }
}

/// The model update that a recognized `KEY=VALUE` assignment makes;
/// an unrecognized key leaves the model unchanged.
pub open spec fn set_field(m: LocaleModel, key: Seq<char>, value: Seq<char>) -> LocaleModel {
    if key == "LANG"@ {
        LocaleModel { lang: value, ..m }
    } else if key == "LC_CTYPE"@ {
        LocaleModel { lc_ctype: value, ..m }
    } else if key == "LC_NUMERIC"@ {
        LocaleModel { lc_numeric: value, ..m }
    } else if key == "LC_TIME"@ {
        LocaleModel { lc_time: value, ..m }
    } else if key == "LC_COLLATE"@ {
        LocaleModel { lc_collate: value, ..m }
    } else if key == "LC_MONETARY"@ {
        LocaleModel { lc_monetary: value, ..m }
    } else if key == "LC_MESSAGES"@ {
        LocaleModel { lc_messages: value, ..m }
    } else if key == "LC_PAPER"@ {
        LocaleModel { lc_paper: value, ..m }
    } else if key == "LC_NAME"@ {
        LocaleModel { lc_name: value, ..m }
    } else if key == "LC_ADDRESS"@ {
        LocaleModel { lc_address: value, ..m }
    } else if key == "LC_TELEPHONE"@ {
        LocaleModel { lc_telephone: value, ..m }
    } else if key == "LC_MEASUREMENT"@ {
        LocaleModel { lc_measurement: value, ..m }
    } else if key == "LC_IDENTIFICATION"@ {
        LocaleModel { lc_identification: value, ..m }
    } else if key == "LC_ALL"@ {
        LocaleModel { lc_all: value, ..m }
    } else {
        m
    }
}

/// What one input line does to the model. A line without `=` is skipped.
/// Otherwise the key is the text before the first `=`, the raw value is
/// the text between the first `=` and the second one (or the end), and
/// surrounding double quotes are stripped from the value.
pub open spec fn apply_line(m: LocaleModel, line: Seq<char>) -> LocaleModel {
    if lacks_char(line, '=') {
        m
    } else {
        set_field(
            m,
            prefix_to(line, '='),
            trim_quotes(prefix_to(suffix_from(line, '='), '=')),
        )
    }
}

/// The model that parsing a sequence of lines in order produces,
/// starting from `m`; a later assignment to a key overrides an earlier one.
pub open spec fn parse_lines(m: LocaleModel, lines: Seq<Seq<char>>) -> LocaleModel
    decreases lines.len(),
{
    if lines.len() == 0 {
        m
    } else {
        apply_line(parse_lines(m, lines.drop_last()), lines.last())
    }
}

/// One serialized line without its closing newline: `KEY=value`.
pub open spec fn body_of(key: Seq<char>, value: Seq<char>) -> Seq<char> {
    key + "="@ + value
}

/// One serialized line: `KEY=value` closed by a newline.
pub open spec fn line_of(key: Seq<char>, value: Seq<char>) -> Seq<char> {
    body_of(key, value) + "\n"@
}

/// The serialized form of a record: fourteen `KEY=value` lines in the
/// fixed category order, each newline-terminated, no quoting added.
pub open spec fn render(m: LocaleModel) -> Seq<char> {
    line_of("LANG"@, m.lang) + line_of("LC_CTYPE"@, m.lc_ctype) + line_of("LC_NUMERIC"@, m.lc_numeric)
        + line_of("LC_TIME"@, m.lc_time) + line_of("LC_COLLATE"@, m.lc_collate) + line_of(
        "LC_MONETARY"@,
        m.lc_monetary,
    ) + line_of("LC_MESSAGES"@, m.lc_messages) + line_of("LC_PAPER"@, m.lc_paper) + line_of(
        "LC_NAME"@,
        m.lc_name,
    ) + line_of("LC_ADDRESS"@, m.lc_address) + line_of("LC_TELEPHONE"@, m.lc_telephone) + line_of(
        "LC_MEASUREMENT"@,
        m.lc_measurement,
    ) + line_of("LC_IDENTIFICATION"@, m.lc_identification) + line_of("LC_ALL"@, m.lc_all)
}

/// Appends one `KEY=value` line to the output.
fn push_line(out: &mut String, key: &str, value: &str)
    ensures
        final(out)@ == old(out)@ + line_of(key@, value@),
{
    out.append(key);
    out.append("=");
    out.append(value);
    out.append("\n");
    proof {
        assert(out@ =~= old(out)@ + line_of(key@, value@));
    }
}

/// Trimming quotes keeps exactly the subrange between the leading and
/// the trailing run of double quotes.
pub proof fn lemma_trim_quotes_range(s: Seq<char>, a: int, b: int)
    requires
        0 <= a <= b <= s.len(),
        forall|j: int| 0 <= j < a ==> s[j] == '"',
        forall|j: int| b <= j < s.len() ==> s[j] == '"',
        a == b || (s[a] != '"' && s[b - 1] != '"'),
    ensures
        trim_quotes(s) == s.subrange(a, b),
    decreases s.len(),
{
    if s.len() == 0 {
        assert(trim_quotes(s) =~= s.subrange(a, b));
    } else if a > 0 {
        lemma_trim_quotes_range(s.drop_first(), a - 1, b - 1);
        assert(s.drop_first().subrange(a - 1, b - 1) =~= s.subrange(a, b));
    } else if a == b {
        assert(s[0] == '"');
        lemma_trim_quotes_range(s.drop_first(), 0, 0);
        assert(s.drop_first().subrange(0, 0) =~= s.subrange(0, 0));
    } else if b < s.len() {
        assert(s[s.len() - 1] == '"');
        lemma_trim_quotes_range(s.drop_last(), a, b);
        assert(s.drop_last().subrange(a, b) =~= s.subrange(a, b));
    } else {
        assert(trim_quotes(s) =~= s.subrange(a, b));
    }
}

/// Applies one configuration line to the record, as `apply_line` says.
fn apply_config_line(res: &mut Locale, line: &str)
    ensures
        final(res)@ == apply_line(old(res)@, line@),
{
    let eq_pos = match find_char(line, 0, '=') {
        None => {
            proof {
                lemma_no_occurrence(line@, '=');
            }
            return ;
        },
        Some(e) => e,
    };
    proof {
        lemma_split_at_first(line@, '=', eq_pos as int);
    }
    let len = line.unicode_len();
    let key = line.substring_char(0, eq_pos);
    let ghost suffix = suffix_from(line@, '=');
    let value_end = match find_char(line, eq_pos + 1, '=') {
        Some(j) => {
            proof {
                assert(suffix[j - (eq_pos + 1)] == '=');
                lemma_split_at_first(suffix, '=', j - (eq_pos + 1));
                assert(suffix.subrange(0, j - (eq_pos + 1)) =~= line@.subrange(
                    eq_pos + 1,
                    j as int,
                ));
            }
            j
        },
        None => {
            proof {
                lemma_no_occurrence(suffix, '=');
            }
            len
        },
    };
    let raw = line.substring_char(eq_pos + 1, value_end);
    proof {
        assert(raw@ == prefix_to(suffix, '='));
    }
    let raw_len = raw.unicode_len();
    let mut a: usize = 0;
    while a < raw_len && raw.get_char(a) == '"'
        invariant
            raw_len == raw@.len(),
            0 <= a <= raw_len,
            forall|j: int| 0 <= j < a ==> raw@[j] == '"',
        decreases raw_len - a,
    {
        a += 1;
    }
    let mut b: usize = raw_len;
    while b > a && raw.get_char(b - 1) == '"'
        invariant
            raw_len == raw@.len(),
            a <= b <= raw_len,
            forall|j: int| b <= j < raw_len ==> raw@[j] == '"',
        decreases b,
    {
        b -= 1;
    }
    let value = raw.substring_char(a, b);
    proof {
        lemma_trim_quotes_range(raw@, a as int, b as int);
        assert(value@ == trim_quotes(prefix_to(suffix_from(line@, '='), '=')));
    }
    if str_equal(key, "LANG") {
        res.lang = value.to_owned();
    } else if str_equal(key, "LC_CTYPE") {
        res.lc_ctype = value.to_owned();
    } else if str_equal(key, "LC_NUMERIC") {
        res.lc_numeric = value.to_owned();
    } else if str_equal(key, "LC_TIME") {
        res.lc_time = value.to_owned();
    } else if str_equal(key, "LC_COLLATE") {
        res.lc_collate = value.to_owned();
    } else if str_equal(key, "LC_MONETARY") {
        res.lc_monetary = value.to_owned();
    } else if str_equal(key, "LC_MESSAGES") {
        res.lc_messages = value.to_owned();
    } else if str_equal(key, "LC_PAPER") {
        res.lc_paper = value.to_owned();
    } else if str_equal(key, "LC_NAME") {
        res.lc_name = value.to_owned();
    } else if str_equal(key, "LC_ADDRESS") {
        res.lc_address = value.to_owned();
    } else if str_equal(key, "LC_TELEPHONE") {
        res.lc_telephone = value.to_owned();
    } else if str_equal(key, "LC_MEASUREMENT") {
        res.lc_measurement = value.to_owned();
    } else if str_equal(key, "LC_IDENTIFICATION") {
        res.lc_identification = value.to_owned();
    } else if str_equal(key, "LC_ALL") {
        res.lc_all = value.to_owned();
    }
}

impl Default for Locale {
    /// A record with every field empty.
    fn default() -> (r: Self)
        ensures
            r@ == empty_model(),
    {
        let r = Locale {
            lang: String::new(),
            lc_ctype: String::new(),
            lc_numeric: String::new(),
            lc_time: String::new(),
            lc_collate: String::new(),
            lc_monetary: String::new(),
            lc_messages: String::new(),
            lc_paper: String::new(),
            lc_name: String::new(),
            lc_address: String::new(),
            lc_telephone: String::new(),
            lc_measurement: String::new(),
            lc_identification: String::new(),
            lc_all: String::new(),
        };
        proof {
            assert(r@.lang =~= empty_model().lang);
            assert(r@.lc_ctype =~= empty_model().lc_ctype);
            assert(r@.lc_numeric =~= empty_model().lc_numeric);
            assert(r@.lc_time =~= empty_model().lc_time);
            assert(r@.lc_collate =~= empty_model().lc_collate);
            assert(r@.lc_monetary =~= empty_model().lc_monetary);
            assert(r@.lc_messages =~= empty_model().lc_messages);
            assert(r@.lc_paper =~= empty_model().lc_paper);
            assert(r@.lc_name =~= empty_model().lc_name);
            assert(r@.lc_address =~= empty_model().lc_address);
            assert(r@.lc_telephone =~= empty_model().lc_telephone);
            assert(r@.lc_measurement =~= empty_model().lc_measurement);
            assert(r@.lc_identification =~= empty_model().lc_identification);
            assert(r@.lc_all =~= empty_model().lc_all);
        }
        r
    }
}

impl Clone for Locale {
    /// A field-for-field copy of the record.
    fn clone(&self) -> (r: Self)
        ensures
            r == *self,
    {
        Locale {
            lang: self.lang.clone(),
            lc_ctype: self.lc_ctype.clone(),
            lc_numeric: self.lc_numeric.clone(),
            lc_time: self.lc_time.clone(),
            lc_collate: self.lc_collate.clone(),
            lc_monetary: self.lc_monetary.clone(),
            lc_messages: self.lc_messages.clone(),
            lc_paper: self.lc_paper.clone(),
            lc_name: self.lc_name.clone(),
            lc_address: self.lc_address.clone(),
            lc_telephone: self.lc_telephone.clone(),
            lc_measurement: self.lc_measurement.clone(),
            lc_identification: self.lc_identification.clone(),
            lc_all: self.lc_all.clone(),
        }
    }
}

impl Locale {
    /// A record with every field empty.
    pub fn new() -> (r: Self)
        ensures
            r@ == empty_model(),
    {
        Self::default()
    }

    /// Parses configuration lines into a record: each recognized
    /// `KEY=VALUE` line sets its field (quotes stripped, later lines
    /// overriding earlier ones); unrecognized keys and lines without
    /// `=` are ignored.
    pub fn from_vec_string(data: Vec<String>) -> (res: Locale)
        ensures
            res@ == parse_lines(empty_model(), data.deep_view()),
    {
        let mut res = Locale::default();
        let ghost all_lines = data.deep_view();
        let n = data.len();
        let mut i: usize = 0;
        proof {
            assert(all_lines.subrange(0, 0) =~= Seq::<Seq<char>>::empty());
        }
        while i < n
            invariant
                n == data.len(),
                0 <= i <= n,
                all_lines == data.deep_view(),
                all_lines.len() == n,
                res@ == parse_lines(empty_model(), all_lines.subrange(0, i as int)),
            decreases n - i,
        {
            let line: &String = &data[i];
            proof {
                assert(line@ == all_lines[i as int]);
            }
            apply_config_line(&mut res, line.as_str());
            i += 1;
            proof {
                let done = all_lines.subrange(0, i as int);
                assert(done.drop_last() =~= all_lines.subrange(0, i - 1));
                assert(res@ == parse_lines(empty_model(), done));
            }
        }
        proof {
            assert(all_lines.subrange(0, n as int) =~= all_lines);
        }
        res
    }

    /// Renders the record as locale-configuration text: exactly fourteen
    /// `KEY=value` lines in the fixed category order, each terminated by
    /// a newline, with no quoting added.
    pub fn to_locale_string(&self) -> (r: String)
        ensures
            r@ == render(self@),
    {
        let mut out = String::new();
        push_line(&mut out, "LANG", self.lang.as_str());
        push_line(&mut out, "LC_CTYPE", self.lc_ctype.as_str());
        push_line(&mut out, "LC_NUMERIC", self.lc_numeric.as_str());
        push_line(&mut out, "LC_TIME", self.lc_time.as_str());
        push_line(&mut out, "LC_COLLATE", self.lc_collate.as_str());
        push_line(&mut out, "LC_MONETARY", self.lc_monetary.as_str());
        push_line(&mut out, "LC_MESSAGES", self.lc_messages.as_str());
        push_line(&mut out, "LC_PAPER", self.lc_paper.as_str());
        push_line(&mut out, "LC_NAME", self.lc_name.as_str());
        push_line(&mut out, "LC_ADDRESS", self.lc_address.as_str());
        push_line(&mut out, "LC_TELEPHONE", self.lc_telephone.as_str());
        push_line(&mut out, "LC_MEASUREMENT", self.lc_measurement.as_str());
        push_line(&mut out, "LC_IDENTIFICATION", self.lc_identification.as_str());
        push_line(&mut out, "LC_ALL", self.lc_all.as_str());
        proof {
            assert(out@ =~= render(self@));
        }
        out
    }
}

/// A field value that parsing gives back unchanged: it holds no `=` and
/// no newline, and quote-trimming leaves it as it is.
pub open spec fn value_round_trippable(v: Seq<char>) -> bool {
    &&& lacks_char(v, '=')
    &&& lacks_char(v, '\n')
    &&& trim_quotes(v) == v
}

/// A record model whose every field value parsing gives back unchanged.
pub open spec fn model_round_trippable(m: LocaleModel) -> bool {
    &&& value_round_trippable(m.lang)
    &&& value_round_trippable(m.lc_ctype)
    &&& value_round_trippable(m.lc_numeric)
    &&& value_round_trippable(m.lc_time)
    &&& value_round_trippable(m.lc_collate)
    &&& value_round_trippable(m.lc_monetary)
    &&& value_round_trippable(m.lc_messages)
    &&& value_round_trippable(m.lc_paper)
    &&& value_round_trippable(m.lc_name)
    &&& value_round_trippable(m.lc_address)
    &&& value_round_trippable(m.lc_telephone)
    &&& value_round_trippable(m.lc_measurement)
    &&& value_round_trippable(m.lc_identification)
    &&& value_round_trippable(m.lc_all)
}

/// A `KEY=value` line whose key holds no `=` and whose value holds no
/// `=` and survives quote-trimming parses to exactly the assignment of
/// that value to that key.
pub proof fn lemma_parse_assignment_line(m: LocaleModel, key: Seq<char>, value: Seq<char>)
    requires
        lacks_char(key, '='),
        lacks_char(value, '='),
        trim_quotes(value) == value,
    ensures
        apply_line(m, body_of(key, value)) == set_field(m, key, value),
{
    reveal_strlit("=");
    let b = body_of(key, value);
    let klen = key.len() as int;
    assert(b[klen] == '=');
    assert(forall|j: int| 0 <= j < klen ==> b[j] == key[j]);
    lemma_split_at_first(b, '=', klen);
    assert(b.subrange(0, klen) =~= key);
    assert(b.subrange(klen + 1, b.len() as int) =~= value);
    lemma_no_occurrence(value, '=');
}

/// Unknown-key tolerance: a line whose key is not one of the fourteen
/// recognized category names leaves the record unchanged.
pub proof fn lemma_unknown_key_ignored(m: LocaleModel, line: Seq<char>)
    requires
        prefix_to(line, '=') != "LANG"@,
        prefix_to(line, '=') != "LC_CTYPE"@,
        prefix_to(line, '=') != "LC_NUMERIC"@,
        prefix_to(line, '=') != "LC_TIME"@,
        prefix_to(line, '=') != "LC_COLLATE"@,
        prefix_to(line, '=') != "LC_MONETARY"@,
        prefix_to(line, '=') != "LC_MESSAGES"@,
        prefix_to(line, '=') != "LC_PAPER"@,
        prefix_to(line, '=') != "LC_NAME"@,
        prefix_to(line, '=') != "LC_ADDRESS"@,
        prefix_to(line, '=') != "LC_TELEPHONE"@,
        prefix_to(line, '=') != "LC_MEASUREMENT"@,
        prefix_to(line, '=') != "LC_IDENTIFICATION"@,
        prefix_to(line, '=') != "LC_ALL"@,
    ensures
        apply_line(m, line) == m,
{
}

/// Last write wins: of two assignments to the same key, only the later
/// one is kept.
pub proof fn lemma_last_write_wins(m: LocaleModel, key: Seq<char>, v1: Seq<char>, v2: Seq<char>)
    ensures
        set_field(set_field(m, key, v1), key, v2) == set_field(m, key, v2),
{
}

/// Serializing is deterministic: two renderings of one record are the
/// same text, so serializing a record twice yields identical output.
pub proof fn lemma_render_deterministic(m: LocaleModel, s1: Seq<char>, s2: Seq<char>)
    requires
        s1 == render(m),
        s2 == render(m),
    ensures
        s1 == s2,
{
}

/// Round trip: parsing the serialized form of a record reproduces the
/// record exactly, whenever each field value holds no `=` and no newline
/// and survives quote-trimming.
#[verifier::rlimit(100)]
pub proof fn lemma_parse_render_round_trip(m: LocaleModel)
    requires
        model_round_trippable(m),
    ensures
        parse_lines(empty_model(), lines_of(render(m))) == m,
{
    reveal_strlit("=");
    reveal_strlit("\n");
    reveal_strlit("LANG");
    reveal_strlit("LC_CTYPE");
    reveal_strlit("LC_NUMERIC");
    reveal_strlit("LC_TIME");
    reveal_strlit("LC_COLLATE");
    reveal_strlit("LC_MONETARY");
    reveal_strlit("LC_MESSAGES");
    reveal_strlit("LC_PAPER");
    reveal_strlit("LC_NAME");
    reveal_strlit("LC_ADDRESS");
    reveal_strlit("LC_TELEPHONE");
    reveal_strlit("LC_MEASUREMENT");
    reveal_strlit("LC_IDENTIFICATION");
    reveal_strlit("LC_ALL");
    assert(lacks_char("LANG"@, '\n') && lacks_char("LANG"@, '='));
    assert(lacks_char("LC_CTYPE"@, '\n') && lacks_char("LC_CTYPE"@, '='));
    assert(lacks_char("LC_NUMERIC"@, '\n') && lacks_char("LC_NUMERIC"@, '='));
    assert(lacks_char("LC_TIME"@, '\n') && lacks_char("LC_TIME"@, '='));
    assert(lacks_char("LC_COLLATE"@, '\n') && lacks_char("LC_COLLATE"@, '='));
    assert(lacks_char("LC_MONETARY"@, '\n') && lacks_char("LC_MONETARY"@, '='));
    assert(lacks_char("LC_MESSAGES"@, '\n') && lacks_char("LC_MESSAGES"@, '='));
    assert(lacks_char("LC_PAPER"@, '\n') && lacks_char("LC_PAPER"@, '='));
    assert(lacks_char("LC_NAME"@, '\n') && lacks_char("LC_NAME"@, '='));
    assert(lacks_char("LC_ADDRESS"@, '\n') && lacks_char("LC_ADDRESS"@, '='));
    assert(lacks_char("LC_TELEPHONE"@, '\n') && lacks_char("LC_TELEPHONE"@, '='));
    assert(lacks_char("LC_MEASUREMENT"@, '\n') && lacks_char("LC_MEASUREMENT"@, '='));
    assert(lacks_char("LC_IDENTIFICATION"@, '\n') && lacks_char("LC_IDENTIFICATION"@, '='));
    assert(lacks_char("LC_ALL"@, '\n') && lacks_char("LC_ALL"@, '='));

    let b1 = body_of("LANG"@, m.lang);
    let b2 = body_of("LC_CTYPE"@, m.lc_ctype);
    let b3 = body_of("LC_NUMERIC"@, m.lc_numeric);
    let b4 = body_of("LC_TIME"@, m.lc_time);
    let b5 = body_of("LC_COLLATE"@, m.lc_collate);
    let b6 = body_of("LC_MONETARY"@, m.lc_monetary);
    let b7 = body_of("LC_MESSAGES"@, m.lc_messages);
    let b8 = body_of("LC_PAPER"@, m.lc_paper);
    let b9 = body_of("LC_NAME"@, m.lc_name);
    let b10 = body_of("LC_ADDRESS"@, m.lc_address);
    let b11 = body_of("LC_TELEPHONE"@, m.lc_telephone);
    let b12 = body_of("LC_MEASUREMENT"@, m.lc_measurement);
    let b13 = body_of("LC_IDENTIFICATION"@, m.lc_identification);
    let b14 = body_of("LC_ALL"@, m.lc_all);
    assert(lacks_char(b1, '\n'));
    assert(lacks_char(b2, '\n'));
    assert(lacks_char(b3, '\n'));
    assert(lacks_char(b4, '\n'));
    assert(lacks_char(b5, '\n'));
    assert(lacks_char(b6, '\n'));
    assert(lacks_char(b7, '\n'));
    assert(lacks_char(b8, '\n'));
    assert(lacks_char(b9, '\n'));
    assert(lacks_char(b10, '\n'));
    assert(lacks_char(b11, '\n'));
    assert(lacks_char(b12, '\n'));
    assert(lacks_char(b13, '\n'));
    assert(lacks_char(b14, '\n'));

    let r15 = Seq::<char>::empty();
    let r14 = line_of("LC_ALL"@, m.lc_all);
    let r13 = line_of("LC_IDENTIFICATION"@, m.lc_identification) + r14;
    let r12 = line_of("LC_MEASUREMENT"@, m.lc_measurement) + r13;
    let r11 = line_of("LC_TELEPHONE"@, m.lc_telephone) + r12;
    let r10 = line_of("LC_ADDRESS"@, m.lc_address) + r11;
    let r9 = line_of("LC_NAME"@, m.lc_name) + r10;
    let r8 = line_of("LC_PAPER"@, m.lc_paper) + r9;
    let r7 = line_of("LC_MESSAGES"@, m.lc_messages) + r8;
    let r6 = line_of("LC_MONETARY"@, m.lc_monetary) + r7;
    let r5 = line_of("LC_COLLATE"@, m.lc_collate) + r6;
    let r4 = line_of("LC_TIME"@, m.lc_time) + r5;
    let r3 = line_of("LC_NUMERIC"@, m.lc_numeric) + r4;
    let r2 = line_of("LC_CTYPE"@, m.lc_ctype) + r3;
    let r1 = line_of("LANG"@, m.lang) + r2;
    assert(r1 =~= render(m));

    assert(lines_of(r15) =~= Seq::<Seq<char>>::empty());
    assert(r14 =~= b14 + seq!['\n'] + r15);
    lemma_lines_of_step(b14, r15);
    assert(r13 =~= b13 + seq!['\n'] + r14);
    lemma_lines_of_step(b13, r14);
    assert(r12 =~= b12 + seq!['\n'] + r13);
    lemma_lines_of_step(b12, r13);
    assert(r11 =~= b11 + seq!['\n'] + r12);
    lemma_lines_of_step(b11, r12);
    assert(r10 =~= b10 + seq!['\n'] + r11);
    lemma_lines_of_step(b10, r11);
    assert(r9 =~= b9 + seq!['\n'] + r10);
    lemma_lines_of_step(b9, r10);
    assert(r8 =~= b8 + seq!['\n'] + r9);
    lemma_lines_of_step(b8, r9);
    assert(r7 =~= b7 + seq!['\n'] + r8);
    lemma_lines_of_step(b7, r8);
    assert(r6 =~= b6 + seq!['\n'] + r7);
    lemma_lines_of_step(b6, r7);
    assert(r5 =~= b5 + seq!['\n'] + r6);
    lemma_lines_of_step(b5, r6);
    assert(r4 =~= b4 + seq!['\n'] + r5);
    lemma_lines_of_step(b4, r5);
    assert(r3 =~= b3 + seq!['\n'] + r4);
    lemma_lines_of_step(b3, r4);
    assert(r2 =~= b2 + seq!['\n'] + r3);
    lemma_lines_of_step(b2, r3);
    assert(r1 =~= b1 + seq!['\n'] + r2);
    lemma_lines_of_step(b1, r2);
    let all = seq![b1, b2, b3, b4, b5, b6, b7, b8, b9, b10, b11, b12, b13, b14];
    assert(lines_of(render(m)) =~= all);

    assert("LC_PAPER"@ != "LC_CTYPE"@) by {
        assert("LC_PAPER"@[3] != "LC_CTYPE"@[3]);
    }
    assert("LC_NAME"@ != "LC_TIME"@) by {
        assert("LC_NAME"@[3] != "LC_TIME"@[3]);
    }
    assert("LC_COLLATE"@ != "LC_NUMERIC"@) by {
        assert("LC_COLLATE"@[3] != "LC_NUMERIC"@[3]);
    }
    assert("LC_ADDRESS"@ != "LC_NUMERIC"@) by {
        assert("LC_ADDRESS"@[3] != "LC_NUMERIC"@[3]);
    }
    assert("LC_ADDRESS"@ != "LC_COLLATE"@) by {
        assert("LC_ADDRESS"@[3] != "LC_COLLATE"@[3]);
    }
    assert("LC_MESSAGES"@ != "LC_MONETARY"@) by {
        assert("LC_MESSAGES"@[4] != "LC_MONETARY"@[4]);
    }
    let e = empty_model();
    lemma_parse_assignment_line(e, "LANG"@, m.lang);
    let m1 = set_field(e, "LANG"@, m.lang);
    lemma_parse_assignment_line(m1, "LC_CTYPE"@, m.lc_ctype);
    let m2 = set_field(m1, "LC_CTYPE"@, m.lc_ctype);
    lemma_parse_assignment_line(m2, "LC_NUMERIC"@, m.lc_numeric);
    let m3 = set_field(m2, "LC_NUMERIC"@, m.lc_numeric);
    lemma_parse_assignment_line(m3, "LC_TIME"@, m.lc_time);
    let m4 = set_field(m3, "LC_TIME"@, m.lc_time);
    lemma_parse_assignment_line(m4, "LC_COLLATE"@, m.lc_collate);
    let m5 = set_field(m4, "LC_COLLATE"@, m.lc_collate);
    lemma_parse_assignment_line(m5, "LC_MONETARY"@, m.lc_monetary);
    let m6 = set_field(m5, "LC_MONETARY"@, m.lc_monetary);
    lemma_parse_assignment_line(m6, "LC_MESSAGES"@, m.lc_messages);
    let m7 = set_field(m6, "LC_MESSAGES"@, m.lc_messages);
    lemma_parse_assignment_line(m7, "LC_PAPER"@, m.lc_paper);
    let m8 = set_field(m7, "LC_PAPER"@, m.lc_paper);
    lemma_parse_assignment_line(m8, "LC_NAME"@, m.lc_name);
    let m9 = set_field(m8, "LC_NAME"@, m.lc_name);
    lemma_parse_assignment_line(m9, "LC_ADDRESS"@, m.lc_address);
    let m10 = set_field(m9, "LC_ADDRESS"@, m.lc_address);
    lemma_parse_assignment_line(m10, "LC_TELEPHONE"@, m.lc_telephone);
    let m11 = set_field(m10, "LC_TELEPHONE"@, m.lc_telephone);
    lemma_parse_assignment_line(m11, "LC_MEASUREMENT"@, m.lc_measurement);
    let m12 = set_field(m11, "LC_MEASUREMENT"@, m.lc_measurement);
    lemma_parse_assignment_line(m12, "LC_IDENTIFICATION"@, m.lc_identification);
    let m13 = set_field(m12, "LC_IDENTIFICATION"@, m.lc_identification);
    lemma_parse_assignment_line(m13, "LC_ALL"@, m.lc_all);
    let m14 = set_field(m13, "LC_ALL"@, m.lc_all);

    let l0 = Seq::<Seq<char>>::empty();
    let l1 = all.subrange(0, 1);
    let l2 = all.subrange(0, 2);
    let l3 = all.subrange(0, 3);
    let l4 = all.subrange(0, 4);
    let l5 = all.subrange(0, 5);
    let l6 = all.subrange(0, 6);
    let l7 = all.subrange(0, 7);
    let l8 = all.subrange(0, 8);
    let l9 = all.subrange(0, 9);
    let l10 = all.subrange(0, 10);
    let l11 = all.subrange(0, 11);
    let l12 = all.subrange(0, 12);
    let l13 = all.subrange(0, 13);
    assert(parse_lines(e, l0) == e);
    assert(l1.drop_last() =~= l0 && l1.last() == b1);
    assert(parse_lines(e, l1) == m1);
    assert(l2.drop_last() =~= l1 && l2.last() == b2);
    assert(parse_lines(e, l2) == m2);
    assert(l3.drop_last() =~= l2 && l3.last() == b3);
    assert(parse_lines(e, l3) == m3);
    assert(l4.drop_last() =~= l3 && l4.last() == b4);
    assert(parse_lines(e, l4) == m4);
    assert(l5.drop_last() =~= l4 && l5.last() == b5);
    assert(parse_lines(e, l5) == m5);
    assert(l6.drop_last() =~= l5 && l6.last() == b6);
    assert(parse_lines(e, l6) == m6);
    assert(l7.drop_last() =~= l6 && l7.last() == b7);
    assert(parse_lines(e, l7) == m7);
    assert(l8.drop_last() =~= l7 && l8.last() == b8);
    assert(parse_lines(e, l8) == m8);
    assert(l9.drop_last() =~= l8 && l9.last() == b9);
    assert(parse_lines(e, l9) == m9);
    assert(l10.drop_last() =~= l9 && l10.last() == b10);
    assert(parse_lines(e, l10) == m10);
    assert(l11.drop_last() =~= l10 && l11.last() == b11);
    assert(parse_lines(e, l11) == m11);
    assert(l12.drop_last() =~= l11 && l12.last() == b12);
    assert(parse_lines(e, l12) == m12);
    assert(l13.drop_last() =~= l12 && l13.last() == b13);
    assert(parse_lines(e, l13) == m13);
    assert(all.drop_last() =~= l13 && all.last() == b14);
    assert(parse_lines(e, all) == m14);
    assert(m14.lang == m.lang);
    assert(m14.lc_ctype == m.lc_ctype);
    assert(m14.lc_numeric == m.lc_numeric);
    assert(m14.lc_time == m.lc_time);
    assert(m14.lc_collate == m.lc_collate);
    assert(m14.lc_monetary == m.lc_monetary);
    assert(m14.lc_messages == m.lc_messages);
    assert(m14.lc_paper == m.lc_paper);
    assert(m14.lc_name == m.lc_name);
    assert(m14.lc_address == m.lc_address);
    assert(m14.lc_telephone == m.lc_telephone);
    assert(m14.lc_measurement == m.lc_measurement);
    assert(m14.lc_identification == m.lc_identification);
    assert(m14.lc_all == m.lc_all);
    assert(m14 == m);
}

} // verus!
