//! Structured prompt templates: fixed instruction frames around a context
//! block and a query, each demanding a specific response shape.

use vstd::prelude::*;

verus! {

/// The structured-analysis template around context and query.
pub open spec fn spec_structured_prompt(ctx: Seq<char>, query: Seq<char>) -> Seq<char> {
    "You are a precise analytical assistant. Follow these steps:\n\n1. First read and analyze this context:\n"@
        + ctx + "\n\n2. Now answer this query: "@ + query
        + "\n\nFormat your response exactly like this:\nANALYSIS:\n[Your analysis of the key points from the context]\n\nANSWER:\n[Your direct answer to the query]\n\nEND_RESPONSE"@
}

/// The JSON-object template around context and query.
pub open spec fn spec_json_prompt(ctx: Seq<char>, query: Seq<char>) -> Seq<char> {
    "Analyze the following context and answer the query. \nFormat your response as a valid JSON object with 'analysis' and 'answer' fields.\n\nCONTEXT:\n"@
        + ctx + "\n\nQUERY:\n"@ + query
        + "\n\nRespond in this exact format:\n{\n    \"analysis\": \"your analysis here\",\n    \"answer\": \"your answer here\"\n}\nEND_JSON"@
}

/// The key-points list template around context and query.
pub open spec fn spec_list_prompt(ctx: Seq<char>, query: Seq<char>) -> Seq<char> {
    "Based on this context:\n"@ + ctx + "\n\nAnswer this query: "@ + query
        + "\n\nFormat your response exactly as follows:\nKEY_POINTS:\n1.\n2.\n3.\n\nANSWER:\n- \n\nEND_LIST"@
}

/// Frames context and query in the structured-analysis template.
pub fn create_structured_prompt(context_str: &str, query: &str) -> (r: String)
    ensures
        r@ == spec_structured_prompt(context_str@, query@),
{
    let mut r = String::new();
    r.append(
        "You are a precise analytical assistant. Follow these steps:\n\n1. First read and analyze this context:\n",
    );
    r.append(context_str);
    r.append("\n\n2. Now answer this query: ");
    r.append(query);
    r.append(
        "\n\nFormat your response exactly like this:\nANALYSIS:\n[Your analysis of the key points from the context]\n\nANSWER:\n[Your direct answer to the query]\n\nEND_RESPONSE",
    );
    r
}

/// Frames context and query in the JSON-object template.
pub fn create_json_prompt(context_str: &str, query: &str) -> (r: String)
    ensures
        r@ == spec_json_prompt(context_str@, query@),
{
    let mut r = String::new();
    r.append(
        "Analyze the following context and answer the query. \nFormat your response as a valid JSON object with 'analysis' and 'answer' fields.\n\nCONTEXT:\n",
    );
    r.append(context_str);
    r.append("\n\nQUERY:\n");
    r.append(query);
    r.append(
        "\n\nRespond in this exact format:\n{\n    \"analysis\": \"your analysis here\",\n    \"answer\": \"your answer here\"\n}\nEND_JSON",
    );
    r
}

/// Frames context and query in the key-points list template.
pub fn create_list_prompt(context_str: &str, query: &str) -> (r: String)
    ensures
        r@ == spec_list_prompt(context_str@, query@),
{
    let mut r = String::new();
    r.append("Based on this context:\n");
    r.append(context_str);
    r.append("\n\nAnswer this query: ");
    r.append(query);
    r.append(
        "\n\nFormat your response exactly as follows:\nKEY_POINTS:\n1.\n2.\n3.\n\nANSWER:\n- \n\nEND_LIST",
    );
    r
}

} // verus!
