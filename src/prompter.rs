//! The textual prompt that presents a catalog of functions to a model.
use crate::functions::{Function, Functions};
use crate::json::{json_field, json_get, json_pretty, json_pretty_text};
use vstd::prelude::*;
use vstd::string::*;

verus! {

/// Why a prompt could not be rendered.
#[derive(Debug, Clone, Copy, PartialEq, Eq, Structural)]
pub enum RenderError {
    /// A function's parameter schema holds no `properties` entry.
    MissingProperties,
}

pub open spec fn head_text() -> Seq<char> {
    "\n\nAvailable functions:\n"@
}

pub open spec fn call_header_text() -> Seq<char> {
    "\n\nFunction call: "@
}

pub open spec fn block_separator() -> Seq<char> {
    "\n\n"@
}

/// The block that presents one function: its header line, then its
/// parameters' schema fenced as `jsonschema`.
pub open spec fn block_text(name: Seq<char>, description: Seq<char>, schema: Seq<char>) -> Seq<
    char,
> {
    name + " - "@ + description + "\n```jsonschema\n"@ + schema + "\n```"@
}

/// Blocks joined by a blank line, in order.
pub open spec fn joined(blocks: Seq<Seq<char>>) -> Seq<char>
    decreases blocks.len(),
{
    if blocks.len() == 0 {
        Seq::empty()
    } else if blocks.len() == 1 {
        blocks[0]
    } else {
        joined(blocks.drop_last()) + block_separator() + blocks.last()
    }
}

/// The whole prompt: the user's request, the list of functions, and the cue
/// after which the model names a function.
pub open spec fn prompt_text(prompt: Seq<char>, body: Seq<char>) -> Seq<char> {
    prompt + head_text() + body + call_header_text()
}

/// The blocks of a catalog, given the schema text of each entry.
pub open spec fn catalog_blocks(fs: Seq<Function>, schemas: Seq<Seq<char>>) -> Seq<Seq<char>> {
    Seq::new(fs.len(), |i: int| block_text(fs[i].name@, fs[i].description@, schemas[i]))
}

/// The prompt for a catalog, given the schema text of each entry.
pub open spec fn rendered(prompt: Seq<char>, fs: Seq<Function>, schemas: Seq<Seq<char>>) -> Seq<
    char,
> {
    prompt_text(prompt, joined(catalog_blocks(fs, schemas)))
}

/// The text of each string.
pub open spec fn views(v: Seq<String>) -> Seq<Seq<char>> {
    Seq::new(v.len(), |i: int| v[i]@)
}

/// The schema texts of a list of per-entry results, with nothing in place
/// of an error.
pub open spec fn ok_views(ss: Seq<Result<String, RenderError>>) -> Seq<Seq<char>> {
    Seq::new(
        ss.len(),
        |i: int|
            match ss[i] {
                Ok(s) => s@,
                Err(_) => Seq::empty(),
            },
    )
}

/// The spaces that indent each level of a schema's JSON text.
pub open spec fn schema_indent() -> Seq<char> {
    "    "@
}

/// The schema text of a function with parameters `parameters`, or why it
/// has none.
pub open spec fn schema_result(parameters: serde_json::Value) -> Result<Seq<char>, RenderError> {
    match json_field(parameters, "properties"@) {
        None => Err(RenderError::MissingProperties),
        Some(p) => Ok(json_pretty_text(p, schema_indent())->Some_0),
    }
}

pub open spec fn result_view(r: Result<String, RenderError>) -> Result<Seq<char>, RenderError> {
    match r {
        Ok(s) => Ok(s@),
        Err(e) => Err(e),
    }
}

pub open spec fn result_views(rs: Seq<Result<String, RenderError>>) -> Seq<Result<Seq<char>, RenderError>> {
    Seq::new(rs.len(), |i: int| result_view(rs[i]))
}

/// The schema result of each entry of a catalog.
pub open spec fn catalog_schemas(fs: Seq<Function>) -> Seq<Result<Seq<char>, RenderError>> {
    Seq::new(fs.len(), |i: int| schema_result(fs[i].parameters))
}

/// Every entry of the catalog has a schema text.
pub open spec fn catalog_ok(fs: Seq<Function>) -> bool {
    forall|i: int| 0 <= i < fs.len() ==> #[trigger] catalog_schemas(fs)[i] is Ok
}

/// `e` is the error of the first entry that has one.
pub open spec fn first_error(ss: Seq<Result<Seq<char>, RenderError>>, e: RenderError) -> bool {
    exists|k: int|
        0 <= k < ss.len() && #[trigger] ss[k] == Err::<Seq<char>, RenderError>(e) && forall|j: int|
            0 <= j < k ==> #[trigger] ss[j] is Ok
}

/// The texts of a list of results, with nothing in place of an error.
pub open spec fn ok_texts(ss: Seq<Result<Seq<char>, RenderError>>) -> Seq<Seq<char>> {
    Seq::new(
        ss.len(),
        |i: int|
            match ss[i] {
                Ok(s) => s,
                Err(_) => Seq::empty(),
            },
    )
}

proof fn lemma_views_of_results(rs: Seq<Result<String, RenderError>>)
    ensures
        ok_views(rs) == ok_texts(result_views(rs)),
{
    assert(ok_views(rs) =~= ok_texts(result_views(rs)));
}

/// Where block `i` starts in the joined text of `blocks`.
pub open spec fn block_offset(blocks: Seq<Seq<char>>, i: int) -> int
    decreases i,
{
    if i <= 0 {
        0
    } else {
        block_offset(blocks, i - 1) + blocks[i - 1].len() + 2
    }
}

proof fn lemma_offset_prefix(blocks: Seq<Seq<char>>, k: int, i: int)
    requires
        0 <= i <= k <= blocks.len(),
    ensures
        block_offset(blocks.subrange(0, k), i) == block_offset(blocks, i),
    decreases i,
{
    if i > 0 {
        lemma_offset_prefix(blocks, k, i - 1);
        assert(blocks.subrange(0, k)[i - 1] == blocks[i - 1]);
    }
}

proof fn lemma_offset_nonneg(blocks: Seq<Seq<char>>, i: int)
    ensures
        block_offset(blocks, i) >= 0,
    decreases i,
{
    if i > 0 {
        lemma_offset_nonneg(blocks, i - 1);
    }
}

proof fn lemma_joined_layout(blocks: Seq<Seq<char>>)
    ensures
        forall|i: int|
            0 <= i < blocks.len() ==> 0 <= #[trigger] block_offset(blocks, i) && block_offset(
                blocks,
                i,
            ) + blocks[i].len() <= joined(blocks).len(),
        blocks.len() > 0 ==> joined(blocks).len() == block_offset(blocks, blocks.len() - 1)
            + blocks.last().len(),
        forall|i: int|
            0 <= i < blocks.len() ==> #[trigger] joined(blocks).subrange(
                block_offset(blocks, i),
                block_offset(blocks, i) + blocks[i].len(),
            ) == blocks[i],
    decreases blocks.len(),
{
    let n = blocks.len() as int;
    if n == 1 {
        assert(joined(blocks).subrange(0, blocks[0].len() as int) =~= blocks[0]);
        assert(block_offset(blocks, 0) == 0);
    } else if n > 1 {
        let init = blocks.drop_last();
        lemma_joined_layout(init);
        lemma_offset_prefix(blocks, n - 1, n - 1);
        assert(init =~= blocks.subrange(0, n - 1));
        let j = joined(blocks);
        let ji = joined(init);
        assert(block_separator().len() == 2) by {
            reveal_strlit("\n\n");
        }
        assert(j == ji + block_separator() + blocks.last());
        lemma_offset_prefix(blocks, n - 1, n - 2);
        assert(init[n - 2] == blocks[n - 2]);
        assert(block_offset(blocks, n - 1) == ji.len() + 2);
        assert forall|i: int| 0 <= i < n implies 0 <= #[trigger] block_offset(blocks, i)
            && block_offset(blocks, i) + blocks[i].len() <= j.len() by {
            lemma_offset_nonneg(blocks, i);
            if i < n - 1 {
                lemma_offset_prefix(blocks, n - 1, i);
                assert(init[i] == blocks[i]);
                assert(block_offset(init, i) + init[i].len() <= ji.len());
            }
        }
        assert forall|i: int| 0 <= i < n implies #[trigger] j.subrange(
            block_offset(blocks, i),
            block_offset(blocks, i) + blocks[i].len(),
        ) == blocks[i] by {
            if i < n - 1 {
                lemma_offset_prefix(blocks, n - 1, i);
                lemma_offset_prefix(blocks, n - 1, n - 2);
                assert(init[i] == blocks[i]);
                assert(ji.subrange(
                    block_offset(init, i),
                    block_offset(init, i) + init[i].len(),
                ) == init[i]);
                assert(j.subrange(block_offset(blocks, i), block_offset(blocks, i) + blocks[i].len())
                    =~= ji.subrange(block_offset(init, i), block_offset(init, i) + init[i].len()));
            } else {
                assert(j.subrange(block_offset(blocks, i), block_offset(blocks, i) + blocks[i].len())
                    =~= blocks.last());
            }
        }
    }
}

/// Layout of a rendered prompt with one block per catalog entry: the text
/// opens with the request and the list's heading, holds the block of entry
/// `i` at `prompt.len() + head_text().len() + block_offset(blocks, i)`, each
/// block after the previous one and a blank line, and closes with the cue
/// for the function call.
pub proof fn lemma_render_layout(prompt: Seq<char>, fs: Seq<Function>, schemas: Seq<Seq<char>>)
    requires
        schemas.len() == fs.len(),
    ensures
        rendered(prompt, fs, schemas).subrange(0, (prompt.len() + head_text().len()) as int) == prompt
            + head_text(),
        rendered(prompt, fs, schemas).subrange(
            rendered(prompt, fs, schemas).len() - call_header_text().len(),
            rendered(prompt, fs, schemas).len() as int,
        ) == call_header_text(),
        forall|i: int|
            0 <= i < fs.len() ==> #[trigger] rendered(prompt, fs, schemas).subrange(
                prompt.len() + head_text().len() + block_offset(catalog_blocks(fs, schemas), i),
                prompt.len() + head_text().len() + block_offset(catalog_blocks(fs, schemas), i)
                    + catalog_blocks(fs, schemas)[i].len(),
            ) == block_text(fs[i].name@, fs[i].description@, schemas[i]),
        forall|i: int|
            0 < i < fs.len() ==> #[trigger] block_offset(catalog_blocks(fs, schemas), i) == block_offset(
                catalog_blocks(fs, schemas),
                i - 1,
            ) + catalog_blocks(fs, schemas)[i - 1].len() + block_separator().len(),
{
    let blocks = catalog_blocks(fs, schemas);
    let body = joined(blocks);
    let r = rendered(prompt, fs, schemas);
    let base = (prompt.len() + head_text().len()) as int;
    lemma_joined_layout(blocks);
    assert(r =~= (prompt + head_text()) + body + call_header_text());
    assert(r.subrange(0, base) =~= prompt + head_text());
    assert(r.subrange(r.len() - call_header_text().len(), r.len() as int) =~= call_header_text());
    assert forall|i: int| 0 <= i < fs.len() implies #[trigger] r.subrange(
        base + block_offset(blocks, i),
        base + block_offset(blocks, i) + blocks[i].len(),
    ) == block_text(fs[i].name@, fs[i].description@, schemas[i]) by {
        assert(body.subrange(block_offset(blocks, i), block_offset(blocks, i) + blocks[i].len())
            == blocks[i]);
        assert(r.subrange(base + block_offset(blocks, i), base + block_offset(blocks, i)
            + blocks[i].len()) =~= body.subrange(
            block_offset(blocks, i),
            block_offset(blocks, i) + blocks[i].len(),
        ));
    }
    assert(block_separator().len() == 2) by {
        reveal_strlit("\n\n");
    }
}

/// What `prompt` returns for the request `prompt` and the catalog `fs`.
pub open spec fn prompt_spec(prompt: Seq<char>, fs: Seq<Function>, r: Result<String, RenderError>) -> bool {
    &&& (r is Ok <==> catalog_ok(fs))
    &&& (r is Ok ==> r->Ok_0@ == rendered(prompt, fs, ok_texts(catalog_schemas(fs))))
    &&& (r matches Err(e) ==> first_error(catalog_schemas(fs), e))
}

/// Rendering keeps no state: two renderings of the same request and catalog
/// give the same text, or the same error.
pub proof fn lemma_render_repeatable(
    prompt: Seq<char>,
    fs: Seq<Function>,
    first: Result<String, RenderError>,
    second: Result<String, RenderError>,
)
    requires
        prompt_spec(prompt, fs, first),
        prompt_spec(prompt, fs, second),
    ensures
        result_view(first) == result_view(second),
{
    let ss = catalog_schemas(fs);
    if let Err(e1) = first {
        if let Err(e2) = second {
            let k1 = choose|k: int|
                0 <= k < ss.len() && #[trigger] ss[k] == Err::<Seq<char>, RenderError>(e1) && forall|j: int|
                    0 <= j < k ==> #[trigger] ss[j] is Ok;
            let k2 = choose|k: int|
                0 <= k < ss.len() && #[trigger] ss[k] == Err::<Seq<char>, RenderError>(e2) && forall|j: int|
                    0 <= j < k ==> #[trigger] ss[j] is Ok;
            if k1 < k2 {
                assert(ss[k1] is Ok);
            } else if k2 < k1 {
                assert(ss[k2] is Ok);
            }
        }
    }
}

/// Builds the prompts that ask a completion model to pick a function.
pub struct CompletionModelPrompter;

impl CompletionModelPrompter {
    pub fn new() -> (r: Self) {
        CompletionModelPrompter
    }

    /// The line that introduces the list of functions.
    pub fn head() -> (r: String)
        ensures
            r@ == head_text(),
    {
        String::from_str("\n\nAvailable functions:\n")
    }

    /// The cue after which the model writes the name of a function.
    pub fn call_header() -> (r: String)
        ensures
            r@ == call_header_text(),
    {
        String::from_str("\n\nFunction call: ")
    }

    /// The block of one function, given its schema text.
    pub fn function_block(name: &str, description: &str, schema: &str) -> (r: String)
        ensures
            r@ == block_text(name@, description@, schema@),
    {
        let mut r = String::from_str(name);
        r.append(" - ");
        r.append(description);
        r.append("\n```jsonschema\n");
        r.append(schema);
        r.append("\n```");
        r
    }

    /// Blocks joined by a blank line.
    pub fn join_blocks(blocks: &Vec<String>) -> (r: String)
        ensures
            r@ == joined(views(blocks@)),
    {
        let mut r = String::new();
        let mut i: usize = 0;
        while i < blocks.len()
            invariant
                i <= blocks@.len(),
                r@ == joined(views(blocks@.subrange(0, i as int))),
            decreases blocks@.len() - i,
        {
            proof {
                let next = views(blocks@.subrange(0, i as int + 1));
                assert(next.drop_last() =~= views(blocks@.subrange(0, i as int)));
            }
            if i > 0 {
                r.append("\n\n");
            }
            r.append(blocks[i].as_str());
            i = i + 1;
        }
        proof {
            assert(blocks@.subrange(0, i as int) =~= blocks@);
        }
        r
    }

    /// The whole prompt around an already joined list of functions.
    pub fn prompt_from_body(prompt: &str, body: &str) -> (r: String)
        ensures
            r@ == prompt_text(prompt@, body@),
    {
        let mut r = String::from_str(prompt);
        let head = Self::head();
        let call = Self::call_header();
        r.append(head.as_str());
        r.append(body);
        r.append(call.as_str());
        r
    }

    /// The schema text of a function: its `properties` written as JSON text
    /// indented by four spaces; an error where there is no `properties` entry.
    pub fn properties_schema(parameters: &serde_json::Value) -> (r: Result<String, RenderError>)
        ensures
            r is Ok <==> json_field(*parameters, "properties"@) is Some,
            result_view(r) == schema_result(*parameters),
    {
        match json_get(parameters, "properties") {
            None => Err(RenderError::MissingProperties),
            Some(props) => Ok(json_pretty(&props, "    ").unwrap()),
        }
    }

    /// The block of one function of a catalog.
    pub fn prompt_for_function(function: &Function) -> (r: Result<String, RenderError>)
        ensures
            r is Ok <==> schema_result(function.parameters) is Ok,
            r matches Ok(b) ==> b@ == block_text(
                function.name@,
                function.description@,
                schema_result(function.parameters)->Ok_0,
            ),
            r matches Err(e) ==> schema_result(function.parameters) == Err::<Seq<char>, RenderError>(e),
    {
        let schema = Self::properties_schema(&function.parameters)?;
        let r = Self::function_block(function.name.as_str(), function.description.as_str(), schema.as_str());
        Ok(r)
    }

    /// The schema text, or the error, of each entry of a catalog, in order.
    pub fn schemas(functions: &Functions) -> (r: Vec<Result<String, RenderError>>)
        ensures
            r@.len() == functions.0@.len(),
            result_views(r@) == catalog_schemas(functions.0@),
    {
        let list = &functions.0;
        let mut out: Vec<Result<String, RenderError>> = Vec::new();
        let mut i: usize = 0;
        while i < list.len()
            invariant
                i <= list@.len(),
                out@.len() == i,
                result_views(out@) =~= catalog_schemas(list@.subrange(0, i as int)),
            decreases list@.len() - i,
        {
            let ghost before = out@;
            let res = Self::properties_schema(&list[i].parameters);
            out.push(res);
            proof {
                assert(out@ == before.push(res));
                assert(result_views(out@)[i as int] == result_view(res));
                assert(list@.subrange(0, i as int + 1)[i as int] == list@[i as int]);
                assert forall|k: int| 0 <= k < i implies result_views(out@)[k] == catalog_schemas(
                    list@.subrange(0, i as int + 1),
                )[k] by {
                    assert(result_views(before)[k] == catalog_schemas(list@.subrange(0, i as int))[k]);
                    assert(out@[k] == before[k]);
                    assert(list@.subrange(0, i as int)[k] == list@[k]);
                }
                assert(result_views(out@) =~= catalog_schemas(list@.subrange(0, i as int + 1)));
            }
            i = i + 1;
        }
        proof {
            assert(list@.subrange(0, i as int) =~= list@);
        }
        out
    }

    /// The blocks of a catalog joined by a blank line, given the schema text
    /// of each entry or why it has none: the first such error in catalog
    /// order, where there is one.
    pub fn join_with_schemas(functions: &Functions, schemas: &Vec<Result<String, RenderError>>) -> (r:
        Result<String, RenderError>)
        requires
            schemas@.len() == functions.0@.len(),
        ensures
            r is Ok <==> forall|i: int| 0 <= i < schemas@.len() ==> #[trigger] schemas@[i] is Ok,
            r is Ok ==> r->Ok_0@ == joined(catalog_blocks(functions.0@, ok_views(schemas@))),
            r matches Err(e) ==> exists|k: int|
                0 <= k < schemas@.len() && #[trigger] schemas@[k] == Err::<String, RenderError>(e)
                    && forall|j: int| 0 <= j < k ==> #[trigger] schemas@[j] is Ok,
    {
        let list = &functions.0;
        let mut blocks: Vec<String> = Vec::new();
        let mut i: usize = 0;
        while i < list.len()
            invariant
                i <= list@.len(),
                list@.len() == schemas@.len(),
                blocks@.len() == i,
                forall|j: int| 0 <= j < i ==> #[trigger] schemas@[j] is Ok,
                views(blocks@) =~= catalog_blocks(
                    list@.subrange(0, i as int),
                    ok_views(schemas@).subrange(0, i as int),
                ),
            decreases list@.len() - i,
        {
            match &schemas[i] {
                Err(e) => {
                    return Err(*e);
                },
                Ok(schema) => {
                    let ghost before = views(blocks@);
                    let block = Self::function_block(
                        list[i].name.as_str(),
                        list[i].description.as_str(),
                        schema.as_str(),
                    );
                    blocks.push(block);
                    proof {
                        let fs = list@.subrange(0, i as int + 1);
                        let ss = ok_views(schemas@).subrange(0, i as int + 1);
                        assert forall|k: int| 0 <= k < i + 1 implies #[trigger] views(blocks@)[k]
                            == catalog_blocks(fs, ss)[k] by {
                            if k < i {
                                assert(before[k] == catalog_blocks(
                                    list@.subrange(0, i as int),
                                    ok_views(schemas@).subrange(0, i as int),
                                )[k]);
                            }
                        }
                        assert(views(blocks@) =~= catalog_blocks(fs, ss));
                    }
                },
            }
            i = i + 1;
        }
        proof {
            assert(list@.subrange(0, i as int) =~= list@);
            assert(ok_views(schemas@).subrange(0, i as int) =~= ok_views(schemas@));
        }
        let body = Self::join_blocks(&blocks);
        Ok(body)
    }

    /// The prompt for a catalog, given the schema text of each entry or why
    /// it has none: the first such error in catalog order, where there is one.
    pub fn render_with_schemas(
        prompt: &str,
        functions: &Functions,
        schemas: &Vec<Result<String, RenderError>>,
    ) -> (r: Result<String, RenderError>)
        requires
            schemas@.len() == functions.0@.len(),
        ensures
            r is Ok <==> forall|i: int| 0 <= i < schemas@.len() ==> #[trigger] schemas@[i] is Ok,
            r is Ok ==> r->Ok_0@ == rendered(prompt@, functions.0@, ok_views(schemas@)),
            r matches Err(e) ==> exists|k: int|
                0 <= k < schemas@.len() && #[trigger] schemas@[k] == Err::<String, RenderError>(e)
                    && forall|j: int| 0 <= j < k ==> #[trigger] schemas@[j] is Ok,
    {
        let body = Self::join_with_schemas(functions, schemas)?;
        Ok(Self::prompt_from_body(prompt, body.as_str()))
    }

    /// The blocks of a whole catalog, in its order, joined by a blank line;
    /// the first entry's error in catalog order, where there is one.
    pub fn prompt_for_functions(functions: &Functions) -> (r: Result<String, RenderError>)
        ensures
            r is Ok <==> catalog_ok(functions.0@),
            r is Ok ==> r->Ok_0@ == joined(
                catalog_blocks(functions.0@, ok_texts(catalog_schemas(functions.0@))),
            ),
            r matches Err(e) ==> first_error(catalog_schemas(functions.0@), e),
    {
        let schemas = Self::schemas(functions);
        let r = Self::join_with_schemas(functions, &schemas);
        proof {
            lemma_views_of_results(schemas@);
            let cs = catalog_schemas(functions.0@);
            assert forall|i: int| 0 <= i < cs.len() implies (#[trigger] cs[i] is Ok <==> schemas@[i] is Ok) by {
                assert(result_views(schemas@)[i] == result_view(schemas@[i]));
            }
            if let Err(e) = r {
                let k = choose|k: int|
                    0 <= k < schemas@.len() && #[trigger] schemas@[k] == Err::<String, RenderError>(e)
                        && forall|j: int| 0 <= j < k ==> #[trigger] schemas@[j] is Ok;
                assert(result_views(schemas@)[k] == result_view(schemas@[k]));
                assert(cs[k] == Err::<Seq<char>, RenderError>(e));
                assert forall|j: int| 0 <= j < k implies #[trigger] cs[j] is Ok by {
                    assert(schemas@[j] is Ok);
                }
            }
        }
        r
    }

    /// The prompt that asks the model which function of the catalog serves
    /// the request `prompt`; the first entry's error in catalog order where
    /// an entry's schema has no `properties`.
    pub fn prompt(&self, prompt: &str, functions: &Functions) -> (r: Result<String, RenderError>)
        ensures
            prompt_spec(prompt@, functions.0@, r),
            functions.0@.len() == 0 ==> r is Ok && r->Ok_0@ == prompt_text(prompt@, Seq::<char>::empty()),
    {
        let body = Self::prompt_for_functions(functions)?;
        Ok(Self::prompt_from_body(prompt, body.as_str()))
    }
}

} // verus!
