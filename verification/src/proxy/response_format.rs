//! The shape that a reply must have.
use vstd::prelude::*;

use crate::json;
use crate::text;

verus! {

/// How many violations of a schema an error names at most.
pub const MAX_REPORTED_VIOLATIONS: usize = 5;

/// The shape that a reply must have.
#[derive(Debug)]
pub enum ResponseFormat {
    JsonObject,
    JsonSchema { json_schema: JsonSchemaSpec },
    Text,
}

/// A JSON schema that a reply must follow. `schema` is its JSON text.
#[derive(Debug)]
pub struct JsonSchemaSpec {
    pub description: Option<String>,
    pub name: String,
    pub schema: String,
    pub strict: Option<bool>,
}

/// What is wrong with a schema or a reply.
#[derive(Debug)]
pub enum ResponseFormatError {
    InvalidSchema(String),
    NotJson(String),
    SchemaViolation(String),
}

/// `ResponseFormatError`, with texts as sequences of characters.
pub enum FormatErrorView {
    InvalidSchema(Seq<char>),
    NotJson(Seq<char>),
    SchemaViolation(Seq<char>),
}

impl View for ResponseFormatError {
    type V = FormatErrorView;

    open spec fn view(&self) -> FormatErrorView {
        match self {
            ResponseFormatError::InvalidSchema(m) => FormatErrorView::InvalidSchema(m@),
            ResponseFormatError::NotJson(m) => FormatErrorView::NotJson(m@),
            ResponseFormatError::SchemaViolation(m) => FormatErrorView::SchemaViolation(m@),
        }
    }
}

impl FormatErrorView {
    /// What the error says.
    pub open spec fn message(self) -> Seq<char> {
        match self {
            FormatErrorView::InvalidSchema(m) => "invalid JSON schema: "@ + m,
            FormatErrorView::NotJson(m) => "response was not valid JSON: "@ + m,
            FormatErrorView::SchemaViolation(m) => "response did not match the schema: "@ + m,
        }
    }
}

impl ResponseFormatError {
    /// What the error says.
    pub fn to_text(&self) -> (r: String)
        ensures
            r@ == self@.message(),
    {
        let (head, tail): (&str, &String) = match self {
            ResponseFormatError::InvalidSchema(m) => ("invalid JSON schema: ", m),
            ResponseFormatError::NotJson(m) => ("response was not valid JSON: ", m),
            ResponseFormatError::SchemaViolation(m) => ("response did not match the schema: ", m),
        };
        let mut out = String::from_str(head);
        out.append(tail.as_str());
        out
    }
}

/// A JSON text is a schema that can be used.
pub uninterp spec fn schema_compiles(schema: Seq<char>) -> bool;

/// How a JSON text violates a schema, one text for each violation, in order.
pub uninterp spec fn schema_violations(schema: Seq<char>, instance: Seq<char>) -> Seq<Seq<char>>;

/// `jsonschema::validator_for`, on the value that `serde_json::from_str` reads; an error of
/// either is given by its text. The crate is built without its means to fetch other
/// documents, so a schema that refers to one cannot be used. Which text an error has is
/// left open: of several such references the crate reports the first that it meets in a
/// hashed set.
#[verifier::external_body]
fn compile_schema(schema: &str) -> (r: Result<(), String>)
    ensures
        r is Ok == schema_compiles(schema@),
{
    let value: serde_json::Value = serde_json::from_str(schema).map_err(|e| e.to_string())?;
    jsonschema::validator_for(&value).map(|_| ()).map_err(|e| e.to_string())
}

/// `jsonschema::Validator::iter_errors`, with the validator that `jsonschema::validator_for`
/// makes, on values that `serde_json::from_str` reads. Where the schema cannot be used,
/// the error is that of `jsonschema::validator_for`, whose text is left open. Of an
/// instance that is no JSON text nothing is said.
#[verifier::external_body]
fn violations(schema: &str, instance: &str) -> (r: Result<Vec<String>, String>)
    ensures
        json::json_compact(instance@) is Ok ==> match r {
            Ok(list) => schema_compiles(schema@) && text::texts(list@) == schema_violations(
                schema@,
                instance@,
            ),
            Err(_) => !schema_compiles(schema@),
        },
{
    let value: serde_json::Value = serde_json::from_str(schema).map_err(|e| e.to_string())?;
    let validator = jsonschema::validator_for(&value).map_err(|e| e.to_string())?;
    let instance: serde_json::Value = serde_json::from_str(instance).map_err(|e| e.to_string())?;
    let list = validator.iter_errors(&instance).map(|e| e.to_string()).collect();
    Ok(list)
}

/// A text without the word `json` in front of it.
pub open spec fn without_tag(s: Seq<char>) -> Seq<char> {
    if text::starts_with_text(s, "json"@) {
        s.skip("json"@.len() as int)
    } else {
        s
    }
}

/// A JSON object or array begins in the text.
pub open spec fn begins_json(s: Seq<char>) -> bool {
    let body = text::trim_start_of(s);
    body.len() > 0 && (body[0] == '{' || body[0] == '[')
}

/// What stands in a fence, from behind its opening. The rest of the opening line names a
/// language and is left out, unless the line goes on with the text itself: there at most
/// the word `json` is left out.
pub open spec fn fenced_text(rest: Seq<char>) -> Seq<char> {
    if rest.contains('\n') && !begins_json(without_tag(text::before(rest, '\n'))) {
        text::after(rest, '\n')
    } else {
        without_tag(rest)
    }
}

/// A text without a fence around it.
pub open spec fn unfenced(s: Seq<char>) -> Seq<char> {
    if !text::starts_with_text(s, "```"@) {
        s
    } else {
        let inner = fenced_text(s.skip("```"@.len() as int));
        let ended = text::trim_end_of(inner);
        text::trim_of(
            if text::ends_with_text(ended, "```"@) {
                ended.take(ended.len() - "```"@.len())
            } else {
                inner
            },
        )
    }
}

/// A text without a fence around it.
pub fn strip_code_fence(s: &str) -> (r: String)
    ensures
        r@ == unfenced(s@),
{
    let rest = match text::strip_prefix(s, "```") {
        Some(rest) => rest,
        None => {
            return String::from_str(s);
        },
    };
    let inner = text_in_fence(rest.as_str());
    let ended = text::trim_end(inner.as_str());
    let body = match text::strip_suffix(ended.as_str(), "```") {
        Some(body) => body,
        None => inner,
    };
    text::trim(body.as_str())
}

fn text_in_fence(rest: &str) -> (r: String)
    ensures
        r@ == fenced_text(rest@),
{
    proof {
        text::lemma_before_len(rest@, '\n');
    }
    if text::contains_char(rest, '\n') {
        let line = text::text_before(rest, '\n');
        let told = strip_tag(line.as_str());
        let body = text::trim_start(told.as_str());
        if !text::begins_with_char(body.as_str(), '{') && !text::begins_with_char(
            body.as_str(),
            '[',
        ) {
            return text::text_after(rest, '\n');
        }
    }
    strip_tag(rest)
}

fn strip_tag(s: &str) -> (r: String)
    ensures
        r@ == without_tag(s@),
{
    match text::strip_prefix(s, "json") {
        Some(rest) => rest,
        None => String::from_str(s),
    }
}

/// What a model is told of the shape.
pub open spec fn instruction_for(format: ResponseFormat) -> Option<Seq<char>> {
    match format {
        ResponseFormat::JsonObject => Some(
            "You must respond with a single valid JSON object and nothing else. Do not wrap it in markdown code fences and do not add any explanatory text."@,
        ),
        ResponseFormat::JsonSchema { json_schema } => Some(
            schema_instruction(
                json_schema.name@,
                text::opt_text(json_schema.description),
                match json::json_pretty(json_schema.schema@) {
                    Ok(p) => p,
                    Err(_) => json_schema.schema@,
                },
            ),
        ),
        ResponseFormat::Text => None,
    }
}

/// What a model is told of a schema.
pub open spec fn schema_instruction(
    name: Seq<char>,
    description: Option<Seq<char>>,
    schema: Seq<char>,
) -> Seq<char> {
    "You must respond with a single JSON value that strictly conforms to the JSON Schema named `"@
        + name + "`."@ + (match description {
        Some(d) => " The schema describes: "@ + d + "."@,
        None => Seq::empty(),
    })
        + " Output only the raw JSON value — no markdown code fences, no explanatory text before or after.\n\nJSON Schema:\n"@
        + schema
}

/// What a model is told of a schema.
pub fn describe_schema(name: &str, description: &Option<String>, schema: &str) -> (r: String)
    ensures
        r@ == schema_instruction(name@, text::opt_text(*description), schema@),
{
    let mut out = String::from_str(
        "You must respond with a single JSON value that strictly conforms to the JSON Schema named `",
    );
    out.append(name);
    out.append("`.");
    match description {
        Some(d) => {
            out.append(" The schema describes: ");
            out.append(d.as_str());
            out.append(".");
        },
        None => {},
    }
    out.append(
        " Output only the raw JSON value — no markdown code fences, no explanatory text before or after.\n\nJSON Schema:\n",
    );
    out.append(schema);
    assert(out@ =~= schema_instruction(name@, text::opt_text(*description), schema@));
    out
}

/// The first violations, as one text.
pub open spec fn reported(violations: Seq<Seq<char>>) -> Seq<char> {
    text::joined(
        if violations.len() > MAX_REPORTED_VIOLATIONS {
            violations.take(MAX_REPORTED_VIOLATIONS as int)
        } else {
            violations
        },
        "; "@,
    )
}

/// What becomes of a reply that is JSON, when it violates a schema in these ways.
pub open spec fn judged(value: Seq<char>, violations: Seq<Seq<char>>) -> Result<
    Seq<char>,
    FormatErrorView,
> {
    if violations.len() == 0 {
        Ok(value)
    } else {
        Err(FormatErrorView::SchemaViolation(reported(violations)))
    }
}

/// What becomes of a reply that is JSON, when an object is asked for.
pub open spec fn judged_object(value: Seq<char>, is_object: bool) -> Result<
    Seq<char>,
    FormatErrorView,
> {
    if is_object {
        Ok(value)
    } else {
        Err(FormatErrorView::SchemaViolation("the value is not a JSON object"@))
    }
}

/// Model of what becomes of a reply.
pub open spec fn verdict(r: Result<String, ResponseFormatError>) -> Result<
    Seq<char>,
    FormatErrorView,
> {
    match r {
        Ok(v) => Ok(v@),
        Err(e) => Err(e@),
    }
}

/// What becomes of a reply that is JSON, when it was held against a schema.
pub fn judge(value: String, outcome: Result<Vec<String>, String>) -> (r: Result<
    String,
    ResponseFormatError,
>)
    ensures
        match outcome {
            Ok(list) => verdict(r) == judged(value@, text::texts(list@)),
            Err(why) => verdict(r) == Err::<Seq<char>, _>(FormatErrorView::InvalidSchema(why@)),
        },
{
    let list = match outcome {
        Ok(list) => list,
        Err(e) => {
            return Err(ResponseFormatError::InvalidSchema(e));
        },
    };
    if list.len() == 0 {
        return Ok(value);
    }
    let mut first: Vec<String> = Vec::new();
    let ghost all = text::texts(list@);
    let mut i: usize = 0;
    assert(text::texts(first@) =~= all.take(0));
    while i < list.len() && i < MAX_REPORTED_VIOLATIONS
        invariant
            i <= list@.len(),
            i <= MAX_REPORTED_VIOLATIONS,
            all == text::texts(list@),
            text::texts(first@) == all.take(i as int),
        decreases list@.len() - i,
    {
        let item = list[i].clone();
        proof {
            text::lemma_texts_push(first@, item);
        }
        first.push(item);
        assert(text::texts(first@) =~= all.take(i + 1));
        i = i + 1;
    }
    assert(all.take(all.len() as int) =~= all);
    Err(ResponseFormatError::SchemaViolation(text::join(&first, "; ")))
}

/// What becomes of a reply that is JSON, when an object is asked for.
pub fn judge_object(value: String, is_object: bool) -> (r: Result<String, ResponseFormatError>)
    ensures
        verdict(r) == judged_object(value@, is_object),
{
    if is_object {
        Ok(value)
    } else {
        Err(
            ResponseFormatError::SchemaViolation(
                String::from_str("the value is not a JSON object"),
            ),
        )
    }
}

/// The text is a JSON object.
pub open spec fn is_json_object(s: Seq<char>) -> bool {
    json::json_parsed(s) matches Ok(Some(_))
}

impl ResponseFormat {
    /// The reply must be JSON.
    pub fn requires_json(&self) -> (r: bool)
        ensures
            r == !(self is Text),
    {
        match self {
            ResponseFormat::Text => false,
            _ => true,
        }
    }

    /// Whether the schema, if there is one, can be used.
    pub fn check_schema(&self) -> (r: Result<(), ResponseFormatError>)
        ensures
            match self {
                ResponseFormat::JsonSchema { json_schema } => match r {
                    Ok(()) => schema_compiles(json_schema.schema@),
                    Err(e) => !schema_compiles(json_schema.schema@) && e is InvalidSchema,
                },
                _ => r is Ok,
            },
    {
        match self {
            ResponseFormat::JsonSchema { json_schema } => {
                match compile_schema(json_schema.schema.as_str()) {
                    Ok(()) => Ok(()),
                    Err(e) => Err(ResponseFormatError::InvalidSchema(e)),
                }
            },
            _ => Ok(()),
        }
    }

    /// What a model is told of the shape.
    pub fn instruction(&self) -> (r: Option<String>)
        ensures
            text::opt_text(r) == instruction_for(*self),
    {
        match self {
            ResponseFormat::JsonObject => Some(
                String::from_str(
                    "You must respond with a single valid JSON object and nothing else. Do not wrap it in markdown code fences and do not add any explanatory text.",
                ),
            ),
            ResponseFormat::JsonSchema { json_schema } => {
                let schema = match json::pretty(json_schema.schema.as_str()) {
                    Ok(p) => p,
                    Err(_) => json_schema.schema.clone(),
                };
                Some(
                    describe_schema(
                        json_schema.name.as_str(),
                        &json_schema.description,
                        schema.as_str(),
                    ),
                )
            },
            ResponseFormat::Text => None,
        }
    }

    /// `r` is what becomes of a reply: a text as it is; otherwise the JSON in it, written
    /// anew, or why there is none or it breaks the schema.
    pub open spec fn answers(&self, reply: Seq<char>, r: Result<Seq<char>, FormatErrorView>) -> bool {
        let body = unfenced(text::trim_of(reply));
        match self {
            ResponseFormat::Text => r == Ok::<_, FormatErrorView>(reply),
            ResponseFormat::JsonObject => match json::json_compact(body) {
                Ok(value) => r == judged_object(value, is_json_object(body)),
                Err(e) => r == Err::<Seq<char>, _>(FormatErrorView::NotJson(e)),
            },
            ResponseFormat::JsonSchema { json_schema } => match json::json_compact(body) {
                Ok(value) => if schema_compiles(json_schema.schema@) {
                    r == judged(value, schema_violations(json_schema.schema@, body))
                } else {
                    r matches Err(FormatErrorView::InvalidSchema(_))
                },
                Err(e) => r == Err::<Seq<char>, _>(FormatErrorView::NotJson(e)),
            },
        }
    }

    /// What becomes of a reply.
    pub fn validate(&self, reply: &str) -> (r: Result<String, ResponseFormatError>)
        ensures
            self.answers(reply@, verdict(r)),
    {
        if let ResponseFormat::Text = self {
            return Ok(String::from_str(reply));
        }
        let trimmed = text::trim(reply);
        let body = strip_code_fence(trimmed.as_str());
        let value = match json::compact(body.as_str()) {
            Ok(value) => value,
            Err(e) => {
                return Err(ResponseFormatError::NotJson(e));
            },
        };
        match self {
            ResponseFormat::JsonSchema { json_schema } => judge(
                value,
                violations(json_schema.schema.as_str(), body.as_str()),
            ),
            _ => {
                let is_object = match json::parse_json(body.as_str()) {
                    Ok(Some(_)) => true,
                    _ => false,
                };
                judge_object(value, is_object)
            },
        }
    }

    /// What a model is told after a reply that had not the shape.
    pub fn repair_instruction(&self, error: &ResponseFormatError) -> (r: String)
        ensures
            r@ == repair_text(error@),
    {
        let mut out = String::from_str(
            "Your previous response did not satisfy the required response format: ",
        );
        out.append(error.to_text().as_str());
        out.append(". Respond again with only the corrected JSON value and nothing else.");
        out
    }
}

/// What a model is told after a reply that had not the shape.
pub open spec fn repair_text(error: FormatErrorView) -> Seq<char> {
    "Your previous response did not satisfy the required response format: "@ + error.message()
        + ". Respond again with only the corrected JSON value and nothing else."@
}

/// A fence changes nothing about whether a reply has the shape: a reply in a fence is
/// taken as what stands in it.
pub proof fn law_fence_does_not_matter(format: ResponseFormat, body: Seq<char>)
    requires
        !(format is Text),
        body.len() > 0,
        text::trim_of(body) == body,
        !text::starts_with_text(body, "```"@),
    ensures
        forall|r: Result<Seq<char>, FormatErrorView>| #[trigger]
            format.answers("```json"@ + seq!['\n'] + body + seq!['\n'] + "```"@, r)
                == format.answers(body, r),
{
    reveal_strlit("```json");
    reveal_strlit("```");
    let fenced = "```json"@ + seq!['\n'] + body + seq!['\n'] + "```"@;
    assert(fenced.last() == '`');
    assert(fenced[0] == '`');
    assert(text::trim_of(fenced) == fenced);
    assert(fenced.take(3) =~= "```"@);
    let rest = fenced.skip(3);
    assert(rest =~= seq!['j', 's', 'o', 'n', '\n'] + body + seq!['\n'] + "```"@);
    let inner = body + seq!['\n'] + "```"@;
    assert(rest[4] == '\n');
    reveal_strlit("json");
    assert(rest.contains('\n'));
    text::lemma_before_len_unique(rest, '\n', 4);
    assert(text::after(rest, '\n') =~= inner);
    assert(text::before(rest, '\n') =~= "json"@);
    assert("json"@.take(4) =~= "json"@);
    assert(without_tag("json"@) =~= Seq::empty());
    assert(fenced_text(rest) == inner);
    assert(inner.last() == '`');
    assert(text::trim_end_of(inner) == inner);
    assert(inner.skip(inner.len() - 3) =~= "```"@);
    assert(inner.take(inner.len() - 3) =~= body.push('\n'));
    crate::fences::lemma_untrimmed(body);
    let padded = body.push('\n');
    assert(text::trim_start_of(padded) == padded);
    assert(padded.drop_last() =~= body);
    assert(text::trim_end_of(body) == body);
    assert(text::trim_of(padded) == body);
    assert(unfenced(fenced) == body);
    assert(unfenced(body) == body);
}

/// A fence on one line comes off as well.
pub proof fn law_one_line_fence_comes_off(body: Seq<char>)
    requires
        body.len() > 0,
        text::trim_of(body) == body,
        !body.contains('\n'),
        !text::starts_with_text(body, "json"@),
    ensures
        unfenced("```"@ + body + "```"@) == body,
{
    reveal_strlit("json");
    reveal_strlit("```");
    let fenced = "```"@ + body + "```"@;
    let rest = fenced.skip(3);
    assert(fenced.take(3) =~= "```"@);
    assert(rest =~= body + "```"@);
    assert(!rest.contains('\n')) by {
        if rest.contains('\n') {
            let i = choose|i: int| 0 <= i < rest.len() && rest[i] == '\n';
            assert(body[i] == '\n');
        }
    }
    assert(without_tag(rest) == rest) by {
        if text::starts_with_text(rest, "json"@) {
            assert(rest.take(4)[0] == 'j' && rest.take(4)[3] == 'n');
            if body.len() >= 4 {
                assert(body.take(4) =~= rest.take(4));
            } else {
                assert(rest.take(4)[body.len() as int] == '`');
            }
        }
    }
    assert(rest.last() == '`');
    assert(text::trim_end_of(rest) == rest);
    assert(rest.skip(rest.len() - 3) =~= "```"@);
    assert(rest.take(rest.len() - 3) =~= body);
}

/// A reply without violations is taken as it is; one with any is refused, and each of the
/// first five is told.
pub proof fn law_violations_are_told(value: Seq<char>, violations: Seq<Seq<char>>, k: int)
    ensures
        violations.len() == 0 ==> judged(value, violations) == Ok::<_, FormatErrorView>(value),
        violations.len() > 0 ==> (judged(value, violations) matches Err(
            FormatErrorView::SchemaViolation(said),
        ) && (0 <= k < violations.len() && k < 5 ==> text::contains_text(said, violations[k]))),
{
    if 0 <= k < violations.len() && k < 5 {
        let told = if violations.len() > MAX_REPORTED_VIOLATIONS {
            violations.take(MAX_REPORTED_VIOLATIONS as int)
        } else {
            violations
        };
        text::law_joined_keeps_parts(told, "; "@, k);
        assert(told[k] == violations[k]);
        assert(text::stands_at(reported(violations), violations[k], text::part_at(told, "; "@, k)));
    }
}

/// An object is asked for and nothing else is taken.
pub proof fn law_only_objects_are_taken(value: Seq<char>, is_object: bool)
    ensures
        judged_object(value, is_object) is Ok <==> is_object,
        is_object ==> judged_object(value, is_object) == Ok::<_, FormatErrorView>(value),
{
}

/// A text is taken as it came. What is to be JSON is taken exactly where it is JSON and
/// keeps to what was asked, and then written anew.
pub proof fn law_replies_are_held_to_their_format(
    format: ResponseFormat,
    reply: Seq<char>,
    r: Result<Seq<char>, FormatErrorView>,
)
    requires
        format.answers(reply, r),
    ensures
        ({
            let body = unfenced(text::trim_of(reply));
            match format {
                ResponseFormat::Text => r == Ok::<_, FormatErrorView>(reply),
                ResponseFormat::JsonObject => {
                    &&& r is Ok <==> json::json_compact(body) is Ok && is_json_object(body)
                    &&& r matches Ok(v) ==> json::json_compact(body) == Ok::<_, Seq<char>>(v)
                    &&& (r is Err && r->Err_0 is NotJson) <==> json::json_compact(body) is Err
                },
                ResponseFormat::JsonSchema { json_schema } => {
                    &&& r is Ok <==> json::json_compact(body) is Ok && schema_compiles(
                        json_schema.schema@,
                    ) && schema_violations(json_schema.schema@, body).len() == 0
                    &&& r matches Ok(v) ==> json::json_compact(body) == Ok::<_, Seq<char>>(v)
                    &&& (r is Err && r->Err_0 is NotJson) <==> json::json_compact(body) is Err
                },
            }
        }),
{
}

/// A text that is in no fence is left as it is.
pub proof fn law_unfenced_text_is_kept(s: Seq<char>)
    requires
        !text::starts_with_text(s, "```"@),
    ensures
        unfenced(s) == s,
{
}

/// A model is told the name of the schema, what it describes and the schema itself.
pub proof fn law_schema_is_told(name: Seq<char>, description: Option<Seq<char>>, schema: Seq<char>)
    ensures
        text::contains_text(schema_instruction(name, description, schema), "`"@ + name + "`"@),
        description matches Some(d) ==> text::contains_text(
            schema_instruction(name, description, schema),
            d,
        ),
        text::ends_with_text(schema_instruction(name, description, schema), schema),
{
    reveal_strlit("`");
    reveal_strlit("`.");
    reveal_strlit(
        "You must respond with a single JSON value that strictly conforms to the JSON Schema named `",
    );
    let lead =
        "You must respond with a single JSON value that strictly conforms to the JSON Schema named `"@;
    let told = schema_instruction(name, description, schema);
    let quoted = "`"@ + name + "`"@;
    let at = lead.len() - 1;
    assert(lead[at] == '`');
    assert(told.subrange(at, at + quoted.len()) =~= quoted);
    assert(text::stands_at(told, quoted, at));
    assert(told.skip(told.len() - schema.len()) =~= schema);
    if description is Some {
        let d = description->0;
        let front = lead + name + "`."@ + " The schema describes: "@;
        text::lemma_middle_stands(front, d, told.skip((front + d).len() as int));
        assert(told =~= front + d + told.skip((front + d).len() as int));
    }
}

/// A model that is asked again is told what was wrong.
pub proof fn law_repair_tells_what_was_wrong(error: FormatErrorView)
    ensures
        text::contains_text(repair_text(error), error.message()),
        text::ends_with_text(
            error.message(),
            match error {
                FormatErrorView::InvalidSchema(m) => m,
                FormatErrorView::NotJson(m) => m,
                FormatErrorView::SchemaViolation(m) => m,
            },
        ),
{
    let told = repair_text(error);
    let lead = "Your previous response did not satisfy the required response format: "@;
    let said = error.message();
    text::lemma_middle_stands(lead, said, told.skip((lead + said).len() as int));
    assert(told =~= lead + said + told.skip((lead + said).len() as int));
    let m = match error {
        FormatErrorView::InvalidSchema(m) => m,
        FormatErrorView::NotJson(m) => m,
        FormatErrorView::SchemaViolation(m) => m,
    };
    assert(said.skip(said.len() - m.len()) =~= m);
}

/// A fence comes off with whatever language its opening line names.
pub proof fn law_named_fence_comes_off(language: Seq<char>, body: Seq<char>)
    requires
        !language.contains('\n'),
        !begins_json(without_tag(language)),
        body.len() > 0,
        text::trim_of(body) == body,
    ensures
        unfenced("```"@ + language + seq!['\n'] + body + seq!['\n'] + "```"@) == body,
{
    reveal_strlit("```");
    let fenced = "```"@ + language + seq!['\n'] + body + seq!['\n'] + "```"@;
    assert(fenced.take(3) =~= "```"@);
    let rest = fenced.skip(3);
    let inner = body + seq!['\n'] + "```"@;
    assert(rest =~= language + seq!['\n'] + inner);
    let n = language.len() as int;
    assert(rest[n] == '\n');
    assert(rest.contains('\n'));
    assert forall|j: int| 0 <= j < n implies rest[j] != '\n' by {
        assert(rest[j] == language[j]);
        assert(language.contains(language[j]));
    }
    text::lemma_before_len_unique(rest, '\n', n);
    assert(text::after(rest, '\n') =~= inner);
    assert(text::before(rest, '\n') =~= language);
    assert(fenced_text(rest) == inner);
    assert(inner.last() == '`');
    assert(text::trim_end_of(inner) == inner);
    assert(inner.skip(inner.len() - 3) =~= "```"@);
    let padded = body.push('\n');
    assert(inner.take(inner.len() - 3) =~= padded);
    crate::fences::lemma_untrimmed(body);
    assert(text::trim_start_of(padded) == padded);
    assert(padded.drop_last() =~= body);
    assert(text::trim_end_of(body) == body);
    assert(text::trim_of(padded) == body);
}

/// A model that must answer in JSON is told so; one that may answer in text is told nothing.
/// Of a schema it is told the name, what it describes, and the schema.
pub proof fn law_shape_is_told(format: ResponseFormat)
    ensures
        format is Text <==> instruction_for(format) is None,
        (format matches ResponseFormat::JsonSchema { json_schema } ==> (instruction_for(
            format,
        ) matches Some(told) && text::contains_text(told, json_schema.name@) && (
        json_schema.description matches Some(d) ==> text::contains_text(told, d@)) && match json::json_pretty(
            json_schema.schema@,
        ) {
            Ok(pretty) => text::ends_with_text(told, pretty),
            Err(_) => text::ends_with_text(told, json_schema.schema@),
        })),
{
    if let ResponseFormat::JsonSchema { json_schema } = format {
        let name = json_schema.name@;
        let description = text::opt_text(json_schema.description);
        let schema = match json::json_pretty(json_schema.schema@) {
            Ok(p) => p,
            Err(_) => json_schema.schema@,
        };
        law_schema_is_told(name, description, schema);
        let told = schema_instruction(name, description, schema);
        let lead =
            "You must respond with a single JSON value that strictly conforms to the JSON Schema named `"@;
        text::lemma_middle_stands(lead, name, told.skip((lead + name).len() as int));
        assert(told =~= lead + name + told.skip((lead + name).len() as int));
    }
}

/// What becomes of a reply is seen as it is: its text, or its error.
pub proof fn law_verdict_is_what_came(r: Result<String, ResponseFormatError>)
    ensures
        r is Ok <==> verdict(r) is Ok,
        r matches Ok(v) ==> verdict(r)->Ok_0 == v@,
        r matches Err(e) ==> verdict(r)->Err_0 == e@,
{
}

} // verus!
