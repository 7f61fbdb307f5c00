//! A recurrence set as text: one content line each for the start, for every
//! rule and for every list of instants.

use vstd::prelude::*;
use vstd::string::*;

use crate::datetime::DateTime;
use crate::error::{
    error_of, ParseError, ParseErrorKind, ParseErrorView, RRuleError, ValidationError,
};
use crate::parser::{
    datetime_from_text, datetime_of, floating_request, line_reads_as, reads_value,
    request_of_text, text_view, ContentLineCaptures, PropertyName,
};
use crate::rule::RRuleView;
use crate::validate::rule_check;
use crate::rule::RRule;
use crate::set::{RRuleSet, RRuleSetView};
use crate::text::{split, split_first, split_once_text, split_text, str_eq, to_upper, upper_of};
use crate::zone::{instants_of, tz_named, Tz};

verus! {

/// The name of a content line that an upper-case word stands for.
pub open spec fn property_name_named(up: Seq<char>) -> Option<PropertyName> {
    if up == "RRULE"@ {
        Some(PropertyName::RRule)
    } else if up == "EXRULE"@ {
        Some(PropertyName::ExRule)
    } else if up == "DTSTART"@ {
        Some(PropertyName::DtStart)
    } else if up == "RDATE"@ {
        Some(PropertyName::RDate)
    } else if up == "EXDATE"@ {
        Some(PropertyName::ExDate)
    } else {
        None
    }
}

/// The name of a content line written by a word that is already in upper
/// case.
pub fn property_name_from_upper(up: &str) -> (r: Option<PropertyName>)
    ensures
        r == property_name_named(up@),
{
    if str_eq(up, "RRULE") {
        Some(PropertyName::RRule)
    } else if str_eq(up, "EXRULE") {
        Some(PropertyName::ExRule)
    } else if str_eq(up, "DTSTART") {
        Some(PropertyName::DtStart)
    } else if str_eq(up, "RDATE") {
        Some(PropertyName::RDate)
    } else if str_eq(up, "EXDATE") {
        Some(PropertyName::ExDate)
    } else {
        None
    }
}

/// The three parts of a content line, as plain values.
pub ghost struct LineView {
    pub name: PropertyName,
    pub parameters: Option<Seq<char>>,
    pub value: Seq<char>,
}

pub open spec fn line_view(c: ContentLineCaptures) -> LineView {
    LineView { name: c.property_name, parameters: text_view(c.parameters), value: c.value@ }
}

/// The parts of the line `NAME:VALUE` or `NAME;PARAMETERS:VALUE`. The name
/// ends at the first `;` or `:`, the parameters at the first `:`. A line
/// without `:` is refused with `InvalidLine`, an unknown name, read in any
/// letter case, with `UnrecognizedProperty`.
pub open spec fn line_of(line: Seq<char>) -> Result<LineView, ParseErrorView> {
    match split_first(line, ':') {
        None => Err(error_of(ParseErrorKind::InvalidLine, line)),
        Some((head, value)) => {
            let name = match split_first(head, ';') {
                Some((n, _)) => n,
                None => head,
            };
            let parameters = match split_first(head, ';') {
                Some((_, p)) => Some(p),
                None => None,
            };
            match property_name_named(upper_of(name)) {
                None => Err(error_of(ParseErrorKind::UnrecognizedProperty, name)),
                Some(n) => Ok(LineView { name: n, parameters, value }),
            }
        },
    }
}

/// Reads the parts of one content line.
pub fn read_line<'a>(line: &'a str) -> (r: Result<ContentLineCaptures<'a>, ParseError>)
    ensures
        match r {
            Ok(c) => line_of(line@) == Ok::<LineView, ParseErrorView>(line_view(c)),
            Err(e) => line_of(line@) == Err::<LineView, ParseErrorView>(e@),
        },
{
    match split_once_text(line, ':') {
        None => Err(ParseError::InvalidLine(line.to_owned())),
        Some((head, value)) => {
            let (name, parameters): (&str, Option<&str>) = match split_once_text(head, ';') {
                Some((n, p)) => (n, Some(p)),
                None => (head, None),
            };
            let up = to_upper(name);
            match property_name_from_upper(up.as_str()) {
                None => Err(ParseError::UnrecognizedProperty(name.to_owned())),
                Some(n) => Ok(ContentLineCaptures { property_name: n, parameters, value }),
            }
        },
    }
}

/// The content lines that a run of text lines holds, empty lines passed
/// over, or the refusal of the first line that cannot be read.
pub open spec fn lines_of_pieces(pieces: Seq<Seq<char>>) -> Result<Seq<LineView>, ParseErrorView>
    decreases pieces.len(),
{
    if pieces.len() == 0 {
        Ok(Seq::empty())
    } else {
        match lines_of_pieces(pieces.drop_last()) {
            Err(e) => Err(e),
            Ok(lines) => if pieces.last().len() == 0 {
                Ok(lines)
            } else {
                match line_of(pieces.last()) {
                    Err(e) => Err(e),
                    Ok(l) => Ok(lines.push(l)),
                }
            },
        }
    }
}

/// The content lines of a text, one to a line.
pub open spec fn lines_of(text: Seq<char>) -> Result<Seq<LineView>, ParseErrorView> {
    lines_of_pieces(split(text, '\n'))
}

pub open spec fn line_views(lines: Seq<ContentLineCaptures>) -> Seq<LineView> {
    lines.map_values(|c: ContentLineCaptures| line_view(c))
}

proof fn lemma_lines_refused(pieces: Seq<Seq<char>>, k: int)
    requires
        0 <= k <= pieces.len(),
        lines_of_pieces(pieces.take(k)) is Err,
    ensures
        lines_of_pieces(pieces) == lines_of_pieces(pieces.take(k)),
    decreases pieces.len() - k,
{
    if k == pieces.len() {
        assert(pieces.take(k) =~= pieces);
    } else {
        assert(pieces.take(k + 1).drop_last() =~= pieces.take(k));
        lemma_lines_refused(pieces, k + 1);
    }
}

/// Reads the content lines of a text.
pub fn read_lines<'a>(text: &'a str) -> (r: Result<Vec<ContentLineCaptures<'a>>, ParseError>)
    ensures
        match r {
            Ok(lines) => lines_of(text@) == Ok::<Seq<LineView>, ParseErrorView>(
                line_views(lines@),
            ),
            Err(e) => lines_of(text@) == Err::<Seq<LineView>, ParseErrorView>(e@),
        },
{
    let pieces = split_text(text, '\n');
    let ghost all = split(text@, '\n');
    let mut out: Vec<ContentLineCaptures<'a>> = Vec::new();
    let mut i: usize = 0;
    proof {
        assert(all.take(0) =~= Seq::<Seq<char>>::empty());
        assert(line_views(out@) =~= Seq::<LineView>::empty());
    }
    while i < pieces.len()
        invariant
            i <= pieces.len(),
            all == split(text@, '\n'),
            pieces.len() == all.len(),
            forall|j: int| 0 <= j < pieces.len() ==> (#[trigger] pieces[j])@ == all[j],
            lines_of_pieces(all.take(i as int)) == Ok::<Seq<LineView>, ParseErrorView>(
                line_views(out@),
            ),
        decreases pieces.len() - i,
    {
        let piece: &str = pieces[i];
        proof {
            assert(all.take(i + 1).drop_last() =~= all.take(i as int));
            assert(all.take(i + 1).last() == all[i as int]);
            assert(piece@ == all[i as int]);
        }
        if piece.unicode_len() > 0 {
            match read_line(piece) {
                Err(e) => {
                    proof {
                        lemma_lines_refused(all, i + 1);
                    }
                    return Err(e);
                },
                Ok(c) => {
                    let ghost before = out@;
                    out.push(c);
                    proof {
                        assert(line_views(out@) =~= line_views(before).push(line_view(c)));
                    }
                },
            }
        }
        i += 1;
    }
    proof {
        assert(all.take(i as int) =~= all);
    }
    Ok(out)
}

/// The number of lines that carry the name `name`.
pub open spec fn count_named(lines: Seq<LineView>, name: PropertyName) -> nat
    decreases lines.len(),
{
    if lines.len() == 0 {
        0
    } else {
        count_named(lines.drop_last(), name) + if lines.last().name == name {
            1nat
        } else {
            0nat
        }
    }
}

fn count_lines(lines: &Vec<ContentLineCaptures>, name: PropertyName) -> (r: usize)
    ensures
        r == count_named(line_views(lines@), name),
{
    let mut n: usize = 0;
    let mut i: usize = 0;
    let ghost views = line_views(lines@);
    proof {
        assert(views.take(0) =~= Seq::<LineView>::empty());
    }
    while i < lines.len()
        invariant
            i <= lines.len(),
            n <= i,
            views == line_views(lines@),
            n == count_named(views.take(i as int), name),
        decreases lines.len() - i,
    {
        proof {
            assert(views.take(i + 1).drop_last() =~= views.take(i as int));
            assert(views.take(i + 1).last() == line_view(lines@[i as int]));
        }
        if lines[i].property_name == name {
            n += 1;
        }
        i += 1;
    }
    proof {
        assert(views.take(i as int) =~= views);
    }
    n
}

/// The zone after one more parameter of a line of instants: `TZID=` names
/// the zone of the values, `VALUE=` their form, `DATE` or `DATE-TIME`, which
/// the values show by themselves. Keys and forms are read in any letter
/// case; an empty piece changes nothing.
pub open spec fn with_date_parameter(zone: Option<Tz>, piece: Seq<char>) -> Result<
    Option<Tz>,
    ParseErrorView,
> {
    if piece.len() == 0 {
        Ok(zone)
    } else {
        match split_first(piece, '=') {
            None => Err(error_of(ParseErrorKind::InvalidParameterFormat, piece)),
            Some((k, v)) => if upper_of(k) == "TZID"@ {
                match tz_named(v) {
                    Some(z) => Ok(Some(z)),
                    None => Err(error_of(ParseErrorKind::InvalidTimezone, v)),
                }
            } else if upper_of(k) == "VALUE"@ {
                if upper_of(v) == "DATE"@ || upper_of(v) == "DATE-TIME"@ {
                    Ok(zone)
                } else {
                    Err(error_of(ParseErrorKind::InvalidParameterFormat, piece))
                }
            } else {
                Err(error_of(ParseErrorKind::UnrecognizedParameter, k))
            },
        }
    }
}

/// The zone that a run of parameters names, if any, or the refusal of the
/// first parameter that cannot be read.
pub open spec fn date_zone_of_pieces(pieces: Seq<Seq<char>>) -> Result<Option<Tz>, ParseErrorView>
    decreases pieces.len(),
{
    if pieces.len() == 0 {
        Ok(None)
    } else {
        match date_zone_of_pieces(pieces.drop_last()) {
            Err(e) => Err(e),
            Ok(zone) => with_date_parameter(zone, pieces.last()),
        }
    }
}

/// The zone that the parameters of a line of instants name, if any.
pub open spec fn date_zone_of(parameters: Option<Seq<char>>) -> Result<Option<Tz>, ParseErrorView> {
    match parameters {
        Some(text) => date_zone_of_pieces(split(text, ';')),
        None => Ok(None),
    }
}

proof fn lemma_zone_refused(pieces: Seq<Seq<char>>, k: int)
    requires
        0 <= k <= pieces.len(),
        date_zone_of_pieces(pieces.take(k)) is Err,
    ensures
        date_zone_of_pieces(pieces) == date_zone_of_pieces(pieces.take(k)),
    decreases pieces.len() - k,
{
    if k == pieces.len() {
        assert(pieces.take(k) =~= pieces);
    } else {
        assert(pieces.take(k + 1).drop_last() =~= pieces.take(k));
        lemma_zone_refused(pieces, k + 1);
    }
}

/// Reads one parameter of a line of instants.
fn read_date_parameter(zone: Option<Tz>, piece: &str) -> (r: Result<Option<Tz>, ParseError>)
    ensures
        reads_value(r, with_date_parameter(zone, piece@)),
{
    if piece.unicode_len() == 0 {
        return Ok(zone);
    }
    match split_once_text(piece, '=') {
        None => Err(ParseError::InvalidParameterFormat(piece.to_owned())),
        Some((k, v)) => {
            let up = to_upper(k);
            if str_eq(up.as_str(), "TZID") {
                match Tz::named(v) {
                    Some(z) => Ok(Some(z)),
                    None => Err(ParseError::InvalidTimezone(v.to_owned())),
                }
            } else if str_eq(up.as_str(), "VALUE") {
                let form = to_upper(v);
                if str_eq(form.as_str(), "DATE") || str_eq(form.as_str(), "DATE-TIME") {
                    Ok(zone)
                } else {
                    Err(ParseError::InvalidParameterFormat(piece.to_owned()))
                }
            } else {
                Err(ParseError::UnrecognizedParameter(k.to_owned()))
            }
        },
    }
}

/// Reads the parameters of a line of instants.
pub fn read_date_parameters(parameters: Option<&str>) -> (r: Result<Option<Tz>, ParseError>)
    ensures
        reads_value(r, date_zone_of(text_view(parameters))),
{
    let text = match parameters {
        Some(t) => t,
        None => {
            return Ok(None);
        },
    };
    let pieces = split_text(text, ';');
    let ghost all = split(text@, ';');
    let mut zone: Option<Tz> = None;
    let mut i: usize = 0;
    proof {
        assert(all.take(0) =~= Seq::<Seq<char>>::empty());
    }
    while i < pieces.len()
        invariant
            i <= pieces.len(),
            parameters == Some(text),
            all == split(text@, ';'),
            pieces.len() == all.len(),
            forall|j: int| 0 <= j < pieces.len() ==> (#[trigger] pieces[j])@ == all[j],
            date_zone_of_pieces(all.take(i as int)) == Ok::<Option<Tz>, ParseErrorView>(zone),
        decreases pieces.len() - i,
    {
        let piece: &str = pieces[i];
        proof {
            assert(all.take(i + 1).drop_last() =~= all.take(i as int));
            assert(all.take(i + 1).last() == all[i as int]);
            assert(piece@ == all[i as int]);
        }
        match read_date_parameter(zone, piece) {
            Ok(z) => {
                zone = z;
            },
            Err(e) => {
                proof {
                    assert(date_zone_of_pieces(all.take(i + 1)) == with_date_parameter(
                        zone,
                        all[i as int],
                    ));
                    lemma_zone_refused(all, i + 1);
                }
                return Err(e);
            },
        }
        i += 1;
    }
    proof {
        assert(all.take(i as int) =~= all);
    }
    Ok(zone)
}

/// Whether `got` is what the text of one instant reads as: a value marked
/// as UTC is read as it stands; a floating value is read in `zone`, as the
/// zone database resolves it, or, without a zone, in the ambient zone, for
/// some answer of the host of at most two instants.
pub open spec fn instant_reads_as(
    got: Result<DateTime, ParseErrorView>,
    value: Seq<char>,
    property: Seq<char>,
    zone: Option<Tz>,
) -> bool {
    match floating_request(value, zone) {
        Some((z, local)) => if z != Tz::Local {
            got == datetime_of(value, property, zone, instants_of(z, local))
        } else {
            exists|found: Seq<i64>|
                found.len() <= 2 && got == #[trigger] datetime_of(value, property, zone, found)
        },
        None => got == datetime_of(value, property, zone, Seq::empty()),
    }
}

/// The result of reading an instant, as a plain value.
pub open spec fn instant_outcome(r: Result<DateTime, ParseError>) -> Result<
    DateTime,
    ParseErrorView,
> {
    match r {
        Ok(t) => Ok(t),
        Err(e) => Err(e@),
    }
}

/// Reads one instant of a line of instants. A floating value is read in
/// `zone`, or in the ambient zone where there is none.
pub fn read_instant(value: &str, property: &str, zone: Option<Tz>) -> (r: Result<
    DateTime,
    ParseError,
>)
    ensures
        instant_reads_as(instant_outcome(r), value@, property@, zone),
        r matches Ok(t) ==> t.valid(),
{
    let instants = match request_of_text(value, zone) {
        Some((z, local)) => z.resolve(local),
        None => Vec::new(),
    };
    let r = datetime_from_text(value, property, zone, &instants);
    proof {
        assert(instant_outcome(r) == datetime_of(value@, property@, zone, instants@));
    }
    r
}

/// Whether the text `piece` reads as some instant.
pub open spec fn instant_can_read(piece: Seq<char>, property: Seq<char>, zone: Option<Tz>) -> bool {
    exists|t: DateTime|
        #[trigger] instant_reads_as(Ok::<DateTime, ParseErrorView>(t), piece, property, zone)
}

/// Whether the piece at place `k` is refused with `e`, and every piece
/// before it reads as an instant.
pub open spec fn refused_at(
    pieces: Seq<Seq<char>>,
    k: int,
    e: ParseErrorView,
    property: Seq<char>,
    zone: Option<Tz>,
) -> bool {
    &&& 0 <= k < pieces.len()
    &&& instant_reads_as(Err::<DateTime, ParseErrorView>(e), pieces[k], property, zone)
    &&& forall|j: int| 0 <= j < k ==> instant_can_read(#[trigger] pieces[j], property, zone)
}

/// Whether `got` is what a run of texts reads as: one instant for each
/// text, in order, or the refusal of the first text that cannot be read.
pub open spec fn pieces_read_as(
    got: Result<Seq<DateTime>, ParseErrorView>,
    pieces: Seq<Seq<char>>,
    property: Seq<char>,
    zone: Option<Tz>,
) -> bool {
    match got {
        Ok(dates) => dates.len() == pieces.len() && forall|j: int|
            0 <= j < dates.len() ==> instant_reads_as(
                Ok::<DateTime, ParseErrorView>(#[trigger] dates[j]),
                pieces[j],
                property,
                zone,
            ),
        Err(e) => exists|k: int| #[trigger] refused_at(pieces, k, e, property, zone),
    }
}

/// Whether `got` is what a line of instants reads as: the parameters are
/// read first, and their refusal is the line's; then the value is split at
/// its commas and each piece is read as an instant, a floating one in the
/// zone that the parameters name.
pub open spec fn instants_read_as(
    got: Result<Seq<DateTime>, ParseErrorView>,
    parameters: Option<Seq<char>>,
    value: Seq<char>,
    property: Seq<char>,
) -> bool {
    match date_zone_of(parameters) {
        Err(e) => got == Err::<Seq<DateTime>, ParseErrorView>(e),
        Ok(zone) => pieces_read_as(got, split(value, ','), property, zone),
    }
}

/// The result of reading a line of instants, as a plain value.
pub open spec fn instants_outcome(r: Result<Vec<DateTime>, ParseError>) -> Result<
    Seq<DateTime>,
    ParseErrorView,
> {
    match r {
        Ok(dates) => Ok(dates@),
        Err(e) => Err(e@),
    }
}

/// Reads the instants of an RDATE or EXDATE line.
fn read_instants(line: &ContentLineCaptures, property: &str) -> (r: Result<Vec<DateTime>, ParseError>)
    ensures
        instants_read_as(
            instants_outcome(r),
            text_view(line.parameters),
            line.value@,
            property@,
        ),
        r matches Ok(dates) ==> forall|i: int| 0 <= i < dates.len() ==> (#[trigger] dates[i]).valid(),
{
    let zone = match read_date_parameters(line.parameters) {
        Ok(z) => z,
        Err(e) => {
            return Err(e);
        },
    };
    let pieces = split_text(line.value, ',');
    let ghost all = split(line.value@, ',');
    let mut out: Vec<DateTime> = Vec::new();
    let mut i: usize = 0;
    while i < pieces.len()
        invariant
            i <= pieces.len(),
            out.len() == i,
            all == split(line.value@, ','),
            pieces.len() == all.len(),
            date_zone_of(text_view(line.parameters)) == Ok::<Option<Tz>, ParseErrorView>(zone),
            forall|j: int| 0 <= j < pieces.len() ==> (#[trigger] pieces[j])@ == all[j],
            forall|j: int| 0 <= j < out.len() ==> (#[trigger] out[j]).valid(),
            forall|j: int|
                0 <= j < out.len() ==> instant_reads_as(
                    Ok::<DateTime, ParseErrorView>(#[trigger] out[j]),
                    all[j],
                    property@,
                    zone,
                ),
        decreases pieces.len() - i,
    {
        let piece: &str = pieces[i];
        proof {
            assert(piece@ == all[i as int]);
        }
        match read_instant(piece, property, zone) {
            Ok(t) => {
                out.push(t);
            },
            Err(e) => {
                proof {
                    assert forall|j: int| 0 <= j < i implies instant_can_read(
                        #[trigger] all[j],
                        property@,
                        zone,
                    ) by {
                        assert(instant_reads_as(
                            Ok::<DateTime, ParseErrorView>(out[j]),
                            all[j],
                            property@,
                            zone,
                        ));
                    }
                    assert(refused_at(all, i as int, e@, property@, zone));
                }
                return Err(e);
            },
        }
        i += 1;
    }
    Ok(out)
}

/// The last line that carries the name `name`.
pub open spec fn line_named(lines: Seq<LineView>, name: PropertyName) -> Option<LineView>
    decreases lines.len(),
{
    if lines.len() == 0 {
        None
    } else if lines.last().name == name {
        Some(lines.last())
    } else {
        line_named(lines.drop_last(), name)
    }
}

/// The last line that carries the name `name`.
fn find_line<'a>(lines: &Vec<ContentLineCaptures<'a>>, name: PropertyName) -> (r: Option<
    ContentLineCaptures<'a>,
>)
    ensures
        match r {
            Some(c) => line_named(line_views(lines@), name) == Some(line_view(c)),
            None => line_named(line_views(lines@), name) is None,
        },
{
    let mut found: Option<ContentLineCaptures<'a>> = None;
    let mut i: usize = 0;
    let ghost views = line_views(lines@);
    proof {
        assert(views.take(0) =~= Seq::<LineView>::empty());
    }
    while i < lines.len()
        invariant
            i <= lines.len(),
            views == line_views(lines@),
            match found {
                Some(c) => line_named(views.take(i as int), name) == Some(line_view(c)),
                None => line_named(views.take(i as int), name) is None,
            },
        decreases lines.len() - i,
    {
        proof {
            assert(views.take(i + 1).drop_last() =~= views.take(i as int));
            assert(views.take(i + 1).last() == line_view(lines@[i as int]));
        }
        if lines[i].property_name == name {
            found = Some(lines[i]);
        }
        i += 1;
    }
    proof {
        assert(views.take(i as int) =~= views);
    }
    found
}

/// The lines that carry the name `name`, in order.
pub open spec fn lines_named(lines: Seq<LineView>, name: PropertyName) -> Seq<LineView>
    decreases lines.len(),
{
    if lines.len() == 0 {
        Seq::empty()
    } else if lines.last().name == name {
        lines_named(lines.drop_last(), name).push(lines.last())
    } else {
        lines_named(lines.drop_last(), name)
    }
}

/// Whether `rules` are what the rule lines `lines` read as, line for line,
/// each of them a rule that passes the check of its fields.
pub open spec fn rules_read_as(rules: Seq<RRuleView>, lines: Seq<LineView>) -> bool {
    &&& rules.len() == lines.len()
    &&& forall|j: int|
        0 <= j < rules.len() ==> rule_check(#[trigger] rules[j]) is None && line_reads_as(
            Ok(rules[j]),
            lines[j].parameters,
            lines[j].value,
        )
}

/// An error of reading a set, as a plain value.
pub ghost enum RRuleErrorView {
    Parser(ParseErrorView),
    Validation(ValidationError),
}

pub open spec fn error_view(e: RRuleError) -> RRuleErrorView {
    match e {
        RRuleError::ParserError(p) => RRuleErrorView::Parser(p@),
        RRuleError::ValidationError(v) => RRuleErrorView::Validation(v),
    }
}

/// Whether `rule` is what a rule line reads as, and passes the check of its
/// fields.
pub open spec fn rule_line_reads(rule: RRuleView, line: LineView) -> bool {
    rule_check(rule) is None && line_reads_as(
        Ok::<RRuleView, ParseErrorView>(rule),
        line.parameters,
        line.value,
    )
}

/// Whether `rule` is what a rule line reads as, and the check of its fields
/// refuses it with `reason`.
pub open spec fn rule_line_fails(rule: RRuleView, line: LineView, reason: ValidationError) -> bool {
    rule_check(rule) == Some(reason) && line_reads_as(
        Ok::<RRuleView, ParseErrorView>(rule),
        line.parameters,
        line.value,
    )
}

/// Whether a line other than the start is refused with `e`: a rule line
/// because its text cannot be read, or because the rule it reads as does
/// not pass the check of its fields; a line of instants because its
/// parameters or one of its instants cannot be read.
pub open spec fn line_refused(e: RRuleErrorView, line: LineView) -> bool {
    match line.name {
        PropertyName::DtStart => false,
        PropertyName::RRule | PropertyName::ExRule => match e {
            RRuleErrorView::Parser(p) => line_reads_as(
                Err::<RRuleView, ParseErrorView>(p),
                line.parameters,
                line.value,
            ),
            RRuleErrorView::Validation(v) => exists|rule: RRuleView|
                #[trigger] rule_line_fails(rule, line, v),
        },
        PropertyName::RDate => match e {
            RRuleErrorView::Parser(p) => instants_read_as(
                Err::<Seq<DateTime>, ParseErrorView>(p),
                line.parameters,
                line.value,
                "RDATE"@,
            ),
            RRuleErrorView::Validation(_) => false,
        },
        PropertyName::ExDate => match e {
            RRuleErrorView::Parser(p) => instants_read_as(
                Err::<Seq<DateTime>, ParseErrorView>(p),
                line.parameters,
                line.value,
                "EXDATE"@,
            ),
            RRuleErrorView::Validation(_) => false,
        },
    }
}

/// Whether a line other than the start reads as something.
pub open spec fn line_can_read(line: LineView) -> bool {
    match line.name {
        PropertyName::DtStart => true,
        PropertyName::RRule | PropertyName::ExRule => exists|rule: RRuleView|
            #[trigger] rule_line_reads(rule, line),
        PropertyName::RDate => exists|dates: Seq<DateTime>|
            #[trigger] instants_read_as(
                Ok::<Seq<DateTime>, ParseErrorView>(dates),
                line.parameters,
                line.value,
                "RDATE"@,
            ),
        PropertyName::ExDate => exists|dates: Seq<DateTime>|
            #[trigger] instants_read_as(
                Ok::<Seq<DateTime>, ParseErrorView>(dates),
                line.parameters,
                line.value,
                "EXDATE"@,
            ),
    }
}

/// Whether every instant of `s` is a real date and time.
pub open spec fn all_valid(s: Seq<DateTime>) -> bool {
    forall|i: int| 0 <= i < s.len() ==> (#[trigger] s[i]).valid()
}

/// Whether the set `after` is the set `before` with what one line adds: a
/// rule line adds the rule it reads as, at the end of its list; a line of
/// instants adds its instants, in order, at the end of its list; a start
/// line adds nothing.
pub open spec fn line_adds(before: RRuleSetView, line: LineView, after: RRuleSetView) -> bool {
    match line.name {
        PropertyName::DtStart => after == before,
        PropertyName::RRule => after.rrules.len() == before.rrules.len() + 1 && rule_line_reads(
            after.rrules.last(),
            line,
        ) && after == (RRuleSetView { rrules: before.rrules.push(after.rrules.last()), ..before }),
        PropertyName::ExRule => after.exrules.len() == before.exrules.len() + 1
            && rule_line_reads(after.exrules.last(), line) && after == (RRuleSetView {
            exrules: before.exrules.push(after.exrules.last()),
            ..before
        }),
        PropertyName::RDate => after.rdates.len() >= before.rdates.len() && instants_read_as(
            Ok::<Seq<DateTime>, ParseErrorView>(after.rdates.skip(before.rdates.len() as int)),
            line.parameters,
            line.value,
            "RDATE"@,
        ) && after == (RRuleSetView {
            rdates: before.rdates + after.rdates.skip(before.rdates.len() as int),
            ..before
        }),
        PropertyName::ExDate => after.exdates.len() >= before.exdates.len() && instants_read_as(
            Ok::<Seq<DateTime>, ParseErrorView>(after.exdates.skip(before.exdates.len() as int)),
            line.parameters,
            line.value,
            "EXDATE"@,
        ) && after == (RRuleSetView {
            exdates: before.exdates + after.exdates.skip(before.exdates.len() as int),
            ..before
        }),
    }
}

/// Adds to `set` the instants `dates`, as added by hand where `added`, as
/// excluded where not.
fn add_dates(set: RRuleSet, dates: &Vec<DateTime>, added: bool) -> (r: RRuleSet)
    ensures
        added ==> r@ == (RRuleSetView { rdates: set@.rdates + dates@, ..set@ }),
        !added ==> r@ == (RRuleSetView { exdates: set@.exdates + dates@, ..set@ }),
{
    let ghost before = set@;
    let mut set = set;
    let mut j: usize = 0;
    proof {
        assert(before.rdates + dates@.take(0) =~= before.rdates);
        assert(before.exdates + dates@.take(0) =~= before.exdates);
    }
    while j < dates.len()
        invariant
            j <= dates.len(),
            added ==> set@ == (RRuleSetView {
                rdates: before.rdates + dates@.take(j as int),
                ..before
            }),
            !added ==> set@ == (RRuleSetView {
                exdates: before.exdates + dates@.take(j as int),
                ..before
            }),
        decreases dates.len() - j,
    {
        proof {
            assert((before.rdates + dates@.take(j as int)).push(dates@[j as int])
                =~= before.rdates + dates@.take(j + 1));
            assert((before.exdates + dates@.take(j as int)).push(dates@[j as int])
                =~= before.exdates + dates@.take(j + 1));
        }
        if added {
            set = set.rdate(dates[j]);
        } else {
            set = set.exdate(dates[j]);
        }
        j += 1;
    }
    proof {
        assert(dates@.take(j as int) =~= dates@);
    }
    set
}

/// Adds to `set` what one line other than the start holds.
fn add_line(set: RRuleSet, line: ContentLineCaptures) -> (r: Result<RRuleSet, RRuleError>)
    ensures
        match r {
            Ok(after) => line_adds(set@, line_view(line), after@),
            Err(e) => line_refused(error_view(e), line_view(line)),
        },
        r matches Ok(after) ==> (all_valid(set@.rdates) ==> all_valid(after@.rdates)) && (
        all_valid(set@.exdates) ==> all_valid(after@.exdates)),
{
    let ghost view = line_view(line);
    match line.property_name {
        PropertyName::DtStart => Ok(set),
        PropertyName::RRule => {
            let rule = match RRule::try_from(line) {
                Ok(rule) => rule,
                Err(e) => {
                    return Err(RRuleError::ParserError(e));
                },
            };
            let ghost d = rule@;
            match rule.validate() {
                Ok(v) => {
                    let after = set.rrule(v);
                    proof {
                        assert(after@.rrules.last() == d);
                    }
                    Ok(after)
                },
                Err(e) => {
                    proof {
                        assert(rule_line_fails(d, view, e));
                    }
                    Err(RRuleError::ValidationError(e))
                },
            }
        },
        PropertyName::ExRule => {
            let rule = match RRule::try_from(line) {
                Ok(rule) => rule,
                Err(e) => {
                    return Err(RRuleError::ParserError(e));
                },
            };
            let ghost d = rule@;
            match rule.validate() {
                Ok(v) => {
                    let after = set.exrule(v);
                    proof {
                        assert(after@.exrules.last() == d);
                    }
                    Ok(after)
                },
                Err(e) => {
                    proof {
                        assert(rule_line_fails(d, view, e));
                    }
                    Err(RRuleError::ValidationError(e))
                },
            }
        },
        PropertyName::RDate => {
            let dates = match read_instants(&line, "RDATE") {
                Ok(d) => d,
                Err(e) => {
                    return Err(RRuleError::ParserError(e));
                },
            };
            let ghost before = set@;
            let after = add_dates(set, &dates, true);
            proof {
                assert(after@.rdates.skip(before.rdates.len() as int) =~= dates@);
                assert forall|i: int| 0 <= i < after@.rdates.len() && all_valid(
                    before.rdates,
                ) implies (#[trigger] after@.rdates[i]).valid() by {
                    if i < before.rdates.len() {
                        assert(after@.rdates[i] == before.rdates[i]);
                    } else {
                        assert(after@.rdates[i] == dates@[i - before.rdates.len()]);
                    }
                }
            }
            Ok(after)
        },
        PropertyName::ExDate => {
            let dates = match read_instants(&line, "EXDATE") {
                Ok(d) => d,
                Err(e) => {
                    return Err(RRuleError::ParserError(e));
                },
            };
            let ghost before = set@;
            let after = add_dates(set, &dates, false);
            proof {
                assert(after@.exdates.skip(before.exdates.len() as int) =~= dates@);
                assert forall|i: int| 0 <= i < after@.exdates.len() && all_valid(
                    before.exdates,
                ) implies (#[trigger] after@.exdates[i]).valid() by {
                    if i < before.exdates.len() {
                        assert(after@.exdates[i] == before.exdates[i]);
                    } else {
                        assert(after@.exdates[i] == dates@[i - before.exdates.len()]);
                    }
                }
            }
            Ok(after)
        },
    }
}

/// Whether `got` is what the start line reads as: its parameters are read
/// first, and their refusal is the line's; then its value is read as one
/// instant, a floating one in the zone that the parameters name, or in the
/// ambient zone where they name none.
pub open spec fn start_reads_as(got: Result<DateTime, ParseErrorView>, line: LineView) -> bool {
    match date_zone_of(line.parameters) {
        Err(e) => got == Err::<DateTime, ParseErrorView>(e),
        Ok(zone) => instant_reads_as(got, line.value, "DTSTART"@, zone),
    }
}

/// Whether the line at place `k` is refused with `e`, and every line before
/// it reads as something.
pub open spec fn refused_line_at(lines: Seq<LineView>, k: int, e: RRuleErrorView) -> bool {
    &&& 0 <= k < lines.len()
    &&& line_refused(e, lines[k])
    &&& forall|j: int| 0 <= j < k ==> line_can_read(#[trigger] lines[j])
}

/// Whether the lines of a set with one start are refused with `e`: the
/// start is, or the start reads as an instant and the first of the other
/// lines that cannot be read is refused with `e`.
pub open spec fn lines_refused(lines: Seq<LineView>, e: RRuleErrorView) -> bool {
    let start = line_named(lines, PropertyName::DtStart)->0;
    (e matches RRuleErrorView::Parser(p) && start_reads_as(
        Err::<DateTime, ParseErrorView>(p),
        start,
    )) || ((exists|t: DateTime|
        #[trigger] start_reads_as(Ok::<DateTime, ParseErrorView>(t), start)) && exists|k: int|
        #[trigger] refused_line_at(lines, k, e))
}

/// Whether `dates` are what the lines of instants `lines` read as: the
/// instants of the first line in order, then those of the second, and so
/// on.
pub open spec fn dates_read_as(dates: Seq<DateTime>, lines: Seq<LineView>, property: Seq<char>) -> bool
    decreases lines.len(),
{
    if lines.len() == 0 {
        dates.len() == 0
    } else {
        exists|k: int|
            0 <= k <= dates.len() && dates_read_as(dates.take(k), lines.drop_last(), property)
                && instants_read_as(
                Ok::<Seq<DateTime>, ParseErrorView>(#[trigger] dates.skip(k)),
                lines.last().parameters,
                lines.last().value,
                property,
            )
    }
}

/// Whether the set `v` is what the lines of a set with one start read as:
/// its start is what the start line reads as; its rules are what the
/// `RRULE` and the `EXRULE` lines read as, in their order; its instants
/// added and excluded by hand are what the `RDATE` and the `EXDATE` lines
/// read as, in their order.
pub open spec fn lines_read_as(v: RRuleSetView, lines: Seq<LineView>) -> bool {
    &&& v.start.valid()
    &&& start_reads_as(
        Ok::<DateTime, ParseErrorView>(v.start),
        line_named(lines, PropertyName::DtStart)->0,
    )
    &&& rules_read_as(v.rrules, lines_named(lines, PropertyName::RRule))
    &&& rules_read_as(v.exrules, lines_named(lines, PropertyName::ExRule))
    &&& dates_read_as(v.rdates, lines_named(lines, PropertyName::RDate), "RDATE"@)
    &&& dates_read_as(v.exdates, lines_named(lines, PropertyName::ExDate), "EXDATE"@)
    &&& all_valid(v.rdates)
    &&& all_valid(v.exdates)
}

/// Whether `r` is what the text of a set reads as. The lines are split
/// first, and the refusal of the first one that cannot be split is the
/// text's. A text without `DTSTART` is refused with `MissingStartDate`, one
/// with several with `TooManyStartDates`. Then the start is read, and then
/// the other lines in their order, each rule being checked as it is read:
/// the first refusal is the text's, and without one the set is given.
pub open spec fn set_reads_as(r: Result<RRuleSet, RRuleError>, text: Seq<char>) -> bool {
    match lines_of(text) {
        Err(e) => r matches Err(RRuleError::ParserError(x)) && x@ == e,
        Ok(lines) => if count_named(lines, PropertyName::DtStart) == 0 {
            r matches Err(RRuleError::ParserError(x)) && x@ == error_of(
                ParseErrorKind::MissingStartDate,
                text,
            )
        } else if count_named(lines, PropertyName::DtStart) > 1 {
            r matches Err(RRuleError::ParserError(x)) && x@ == error_of(
                ParseErrorKind::TooManyStartDates,
                text,
            )
        } else {
            match r {
                Ok(set) => lines_read_as(set@, lines),
                Err(e) => lines_refused(lines, error_view(e)),
            }
        },
    }
}

impl RRuleSet {
    /// Reads a set from its content lines, one to a line of the text, in
    /// any order: one `DTSTART`, and any number of `RRULE`, `EXRULE`,
    /// `RDATE` and `EXDATE`. The lines are split first, and the first one
    /// that cannot be split is refused; then a text without `DTSTART` is
    /// refused with `MissingStartDate` and one with several with
    /// `TooManyStartDates`; then the start is read, and then the other
    /// lines in their order, each rule being checked as it is read. The
    /// first refusal is reported; without one, the set is given that has
    /// the start, the rules and the instants that the lines read as.
    pub fn from_str(text: &str) -> (r: Result<RRuleSet, RRuleError>)
        ensures
            set_reads_as(r, text@),
    {
        let lines = match read_lines(text) {
            Ok(l) => l,
            Err(e) => {
                return Err(RRuleError::ParserError(e));
            },
        };
        let ghost views = line_views(lines@);
        let starts = count_lines(&lines, PropertyName::DtStart);
        if starts == 0 {
            return Err(RRuleError::ParserError(ParseError::MissingStartDate(text.to_owned())));
        }
        if starts > 1 {
            return Err(RRuleError::ParserError(ParseError::TooManyStartDates(text.to_owned())));
        }
        let line = match find_line(&lines, PropertyName::DtStart) {
            Some(line) => line,
            None => {
                proof {
                    lemma_counted_line(views, PropertyName::DtStart);
                }
                return Err(RRuleError::ParserError(ParseError::MissingStartDate(text.to_owned())));
            },
        };
        let zone = match read_date_parameters(line.parameters) {
            Ok(z) => z,
            Err(e) => {
                return Err(RRuleError::ParserError(e));
            },
        };
        let start = match read_instant(line.value, "DTSTART", zone) {
            Ok(t) => t,
            Err(e) => {
                return Err(RRuleError::ParserError(e));
            },
        };
        proof {
            assert(start_reads_as(Ok::<DateTime, ParseErrorView>(start), line_view(line)));
        }
        let mut set = RRuleSet::new(start);
        let mut i: usize = 0;
        proof {
            lemma_nothing_read(set@);
            assert(views.take(0) =~= Seq::<LineView>::empty());
        }
        while i < lines.len()
            invariant
                i <= lines.len(),
                views == line_views(lines@),
                lines_of(text@) == Ok::<Seq<LineView>, ParseErrorView>(views),
                count_named(views, PropertyName::DtStart) == 1,
                line_named(views, PropertyName::DtStart) == Some(line_view(line)),
                start.valid(),
                start_reads_as(Ok::<DateTime, ParseErrorView>(start), line_view(line)),
                set@.start == start,
                read_so_far(set@, views.take(i as int)),
            decreases lines.len() - i,
        {
            let ghost before = set@;
            let ghost this = views[i as int];
            proof {
                assert(views.take(i + 1).drop_last() =~= views.take(i as int));
                assert(views.take(i + 1).last() == this);
                assert(this == line_view(lines@[i as int]));
            }
            match add_line(set, lines[i]) {
                Err(e) => {
                    proof {
                        lemma_all_can_read(before, views.take(i as int));
                        assert forall|j: int| 0 <= j < i implies line_can_read(
                            #[trigger] views[j],
                        ) by {
                            assert(views.take(i as int)[j] == views[j]);
                        }
                        assert(refused_line_at(views, i as int, error_view(e)));
                    }
                    return Err(e);
                },
                Ok(after) => {
                    set = after;
                    proof {
                        lemma_line_added(before, views.take(i as int), this, set@);
                        assert(views.take(i as int).push(this) =~= views.take(i + 1));
                    }
                },
            }
            i += 1;
        }
        proof {
            assert(views.take(i as int) =~= views);
            lemma_all_read(set@, views);
        }
        Ok(set)
    }
}

/// Where lines are counted under a name, there is a line of that name.
proof fn lemma_counted_line(lines: Seq<LineView>, name: PropertyName)
    requires
        count_named(lines, name) > 0,
    ensures
        line_named(lines, name) is Some,
    decreases lines.len(),
{
    if lines.len() > 0 && lines.last().name != name {
        lemma_counted_line(lines.drop_last(), name);
    }
}

/// Whether the rules and instants of the set `v` are what `lines` read as,
/// each of which reads as something.
#[verifier::opaque]
pub open spec fn read_so_far(v: RRuleSetView, lines: Seq<LineView>) -> bool {
    &&& rules_read_as(v.rrules, lines_named(lines, PropertyName::RRule))
    &&& rules_read_as(v.exrules, lines_named(lines, PropertyName::ExRule))
    &&& dates_read_as(v.rdates, lines_named(lines, PropertyName::RDate), "RDATE"@)
    &&& dates_read_as(v.exdates, lines_named(lines, PropertyName::ExDate), "EXDATE"@)
    &&& all_valid(v.rdates)
    &&& all_valid(v.exdates)
    &&& forall|j: int| 0 <= j < lines.len() ==> line_can_read(#[trigger] lines[j])
}

proof fn lemma_nothing_read(v: RRuleSetView)
    requires
        v.rrules.len() == 0,
        v.exrules.len() == 0,
        v.rdates.len() == 0,
        v.exdates.len() == 0,
    ensures
        read_so_far(v, Seq::empty()),
{
    reveal(read_so_far);
}

proof fn lemma_all_can_read(v: RRuleSetView, lines: Seq<LineView>)
    requires
        read_so_far(v, lines),
    ensures
        forall|j: int| 0 <= j < lines.len() ==> line_can_read(#[trigger] lines[j]),
{
    reveal(read_so_far);
}

proof fn lemma_all_read(v: RRuleSetView, lines: Seq<LineView>)
    requires
        read_so_far(v, lines),
    ensures
        rules_read_as(v.rrules, lines_named(lines, PropertyName::RRule)),
        rules_read_as(v.exrules, lines_named(lines, PropertyName::ExRule)),
        dates_read_as(v.rdates, lines_named(lines, PropertyName::RDate), "RDATE"@),
        dates_read_as(v.exdates, lines_named(lines, PropertyName::ExDate), "EXDATE"@),
        all_valid(v.rdates),
        all_valid(v.exdates),
{
    reveal(read_so_far);
}

/// One more rule, read from one more line.
proof fn lemma_rule_added(
    before: Seq<RRuleView>,
    lines: Seq<LineView>,
    line: LineView,
    after: Seq<RRuleView>,
)
    requires
        rules_read_as(before, lines),
        after.len() == before.len() + 1,
        after == before.push(after.last()),
        rule_line_reads(after.last(), line),
    ensures
        rules_read_as(after, lines.push(line)),
{
    let named = lines.push(line);
    assert forall|j: int| 0 <= j < after.len() implies rule_check(#[trigger] after[j]) is None
        && line_reads_as(Ok(after[j]), named[j].parameters, named[j].value) by {
        if j < before.len() {
            assert(after[j] == before[j]);
            assert(named[j] == lines[j]);
        } else {
            assert(named[j] == line);
        }
    }
}

/// More instants, read from one more line.
proof fn lemma_dates_added(
    before: Seq<DateTime>,
    lines: Seq<LineView>,
    line: LineView,
    after: Seq<DateTime>,
    property: Seq<char>,
)
    requires
        dates_read_as(before, lines, property),
        after.len() >= before.len(),
        after == before + after.skip(before.len() as int),
        instants_read_as(
            Ok::<Seq<DateTime>, ParseErrorView>(after.skip(before.len() as int)),
            line.parameters,
            line.value,
            property,
        ),
    ensures
        dates_read_as(after, lines.push(line), property),
{
    let more = lines.push(line);
    let k = before.len() as int;
    assert(more.drop_last() =~= lines);
    assert(more.last() == line);
    assert(after.take(k) =~= before);
    assert(dates_read_as(after.take(k), more.drop_last(), property));
    assert(instants_read_as(
        Ok::<Seq<DateTime>, ParseErrorView>(after.skip(k)),
        more.last().parameters,
        more.last().value,
        property,
    ));
}

/// A set that is what some lines read as, with what one more line adds, is
/// what the lines with that line read as.
proof fn lemma_line_added(
    before: RRuleSetView,
    lines: Seq<LineView>,
    line: LineView,
    after: RRuleSetView,
)
    requires
        line_adds(before, line, after),
        all_valid(before.rdates) ==> all_valid(after.rdates),
        all_valid(before.exdates) ==> all_valid(after.exdates),
        read_so_far(before, lines),
    ensures
        after.start == before.start,
        read_so_far(after, lines.push(line)),
{
    reveal(read_so_far);
    let more = lines.push(line);
    assert(more.drop_last() =~= lines);
    assert(more.last() == line);
    assert forall|j: int| 0 <= j < more.len() implies line_can_read(#[trigger] more[j]) by {
        if j < lines.len() {
            assert(more[j] == lines[j]);
        } else {
            assert(more[j] == line);
            match line.name {
                PropertyName::DtStart => {},
                PropertyName::RRule => {
                    assert(rule_line_reads(after.rrules.last(), line));
                },
                PropertyName::ExRule => {
                    assert(rule_line_reads(after.exrules.last(), line));
                },
                PropertyName::RDate => {
                    assert(instants_read_as(
                        Ok::<Seq<DateTime>, ParseErrorView>(
                            after.rdates.skip(before.rdates.len() as int),
                        ),
                        line.parameters,
                        line.value,
                        "RDATE"@,
                    ));
                },
                PropertyName::ExDate => {
                    assert(instants_read_as(
                        Ok::<Seq<DateTime>, ParseErrorView>(
                            after.exdates.skip(before.exdates.len() as int),
                        ),
                        line.parameters,
                        line.value,
                        "EXDATE"@,
                    ));
                },
            }
        }
    }
    let rr = lines_named(lines, PropertyName::RRule);
    let er = lines_named(lines, PropertyName::ExRule);
    let rd = lines_named(lines, PropertyName::RDate);
    let ed = lines_named(lines, PropertyName::ExDate);
    match line.name {
        PropertyName::DtStart => {
            assert(lines_named(more, PropertyName::RRule) == rr);
            assert(lines_named(more, PropertyName::ExRule) == er);
            assert(lines_named(more, PropertyName::RDate) == rd);
            assert(lines_named(more, PropertyName::ExDate) == ed);
        },
        PropertyName::RRule => {
            assert(lines_named(more, PropertyName::RRule) == rr.push(line));
            assert(lines_named(more, PropertyName::ExRule) == er);
            assert(lines_named(more, PropertyName::RDate) == rd);
            assert(lines_named(more, PropertyName::ExDate) == ed);
            lemma_rule_added(before.rrules, rr, line, after.rrules);
        },
        PropertyName::ExRule => {
            assert(lines_named(more, PropertyName::RRule) == rr);
            assert(lines_named(more, PropertyName::ExRule) == er.push(line));
            assert(lines_named(more, PropertyName::RDate) == rd);
            assert(lines_named(more, PropertyName::ExDate) == ed);
            lemma_rule_added(before.exrules, er, line, after.exrules);
        },
        PropertyName::RDate => {
            assert(lines_named(more, PropertyName::RRule) == rr);
            assert(lines_named(more, PropertyName::ExRule) == er);
            assert(lines_named(more, PropertyName::RDate) == rd.push(line));
            assert(lines_named(more, PropertyName::ExDate) == ed);
            lemma_dates_added(before.rdates, rd, line, after.rdates, "RDATE"@);
        },
        PropertyName::ExDate => {
            assert(lines_named(more, PropertyName::RRule) == rr);
            assert(lines_named(more, PropertyName::ExRule) == er);
            assert(lines_named(more, PropertyName::RDate) == rd);
            assert(lines_named(more, PropertyName::ExDate) == ed.push(line));
            lemma_dates_added(before.exdates, ed, line, after.exdates, "EXDATE"@);
        },
    }
}

impl core::str::FromStr for RRuleSet {
    type Err = RRuleError;

    /// Reads a set from its content lines, one to a line of the text: the
    /// set that the lines read as, or the first refusal.
    fn from_str(s: &str) -> (r: Result<Self, Self::Err>)
        ensures
            set_reads_as(r, s@),
    {
        RRuleSet::from_str(s)
    }
}

} // verus!
