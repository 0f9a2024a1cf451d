use levchat::analysis::max_subarray_sum;
use levchat::engine::{health_retry_decision, truncate_for_embedding, RetryAction};
use levchat::prompts::{create_json_prompt, create_list_prompt, create_structured_prompt};
use levchat::setup::{
    choose_windows_binary, download_percentage, get_download_url, progress_report, WindowsBinary,
};
use levchat::command::Platform;
use levchat::text::{escape_quotes, i64_to_string, u64_to_string};

#[test]
fn decimal_rendering() {
    assert_eq!(u64_to_string(0), "0");
    assert_eq!(u64_to_string(7), "7");
    assert_eq!(u64_to_string(12345), "12345");
    assert_eq!(i64_to_string(-42), "-42");
    assert_eq!(i64_to_string(9), "9");
    assert_eq!(i64_to_string(i64::MIN), format!("{}", i64::MIN));
}

#[test]
fn quote_escaping() {
    assert_eq!(escape_quotes("plain"), "plain");
    assert_eq!(escape_quotes("a\"b\"c"), "a\\\"b\\\"c");
    assert_eq!(escape_quotes("\""), "\\\"");
    assert_eq!(escape_quotes(""), "");
}

#[test]
fn running_maximum_of_array() {
    let arr = vec![1, -2, 13, 10, -4, 7, 2, -5];
    assert_eq!(max_subarray_sum(&arr), 13);
    assert_eq!(max_subarray_sum(&vec![-3, -1, -2]), -1);
    assert_eq!(max_subarray_sum(&vec![5]), 5);
}

#[test]
fn retry_decision_budget() {
    assert_eq!(health_retry_decision(0, true), RetryAction::Proceed);
    assert_eq!(health_retry_decision(0, false), RetryAction::RetryAfterDelay);
    assert_eq!(health_retry_decision(3, false), RetryAction::RetryAfterDelay);
    assert_eq!(health_retry_decision(4, false), RetryAction::Fail);
}

#[test]
fn embedding_payload_truncation() {
    let short = vec![7u8; 10];
    assert_eq!(truncate_for_embedding(&short), short);
    let long = vec![9u8; 1000];
    let cut = truncate_for_embedding(&long);
    assert_eq!(cut.len(), 384);
    assert_eq!(cut, vec![9u8; 384]);
}

#[test]
fn windows_binary_choice() {
    assert_eq!(choose_windows_binary(Some(11), false, false), Some(WindowsBinary::CudaV11));
    assert_eq!(choose_windows_binary(Some(12), true, true), Some(WindowsBinary::CudaV12));
    assert_eq!(choose_windows_binary(Some(9), true, false), Some(WindowsBinary::Avx512));
    assert_eq!(choose_windows_binary(None, false, true), Some(WindowsBinary::Avx2));
    assert_eq!(choose_windows_binary(None, false, false), Some(WindowsBinary::AvxBasic));
}

#[test]
fn download_urls() {
    assert_eq!(
        get_download_url(&Platform::MacOs, None),
        Some("brew install llama.cpp".to_string())
    );
    assert_eq!(
        get_download_url(&Platform::Linux, None),
        Some(
            "https://github.com/ggerganov/llama.cpp/releases/download/b4164/llama-b4164-bin-ubuntu-x64.zip"
                .to_string()
        )
    );
    assert_eq!(
        get_download_url(&Platform::Windows, Some(&WindowsBinary::Avx2)),
        Some(
            "https://github.com/ggerganov/llama.cpp/releases/download/b4164/llama-b4163-bin-win-avx2-x64.zip"
                .to_string()
        )
    );
    assert_eq!(get_download_url(&Platform::Windows, None), None);
}

#[test]
fn percentage_rounds_half_up() {
    assert_eq!(download_percentage(200, 100), 50);
    assert_eq!(download_percentage(3, 1), 33);
    assert_eq!(download_percentage(3, 2), 67);
    assert_eq!(download_percentage(2, 1), 50);
    assert_eq!(download_percentage(100, 100), 100);
    assert_eq!(download_percentage(0, 0), 0);
    assert_eq!(download_percentage(0, 5), 255);
}

#[test]
fn progress_report_fields() {
    let p = progress_report(Some(200), 100, true, Some("m.gguf".to_string()));
    assert_eq!(p.total_size, Some(200));
    assert_eq!(p.downloaded_size, 100);
    assert!(p.is_downloading);
    assert_eq!(p.filename, Some("m.gguf".to_string()));
    assert_eq!(p.percentage, Some(50));
    let q = progress_report(None, 7, false, None);
    assert_eq!(q.percentage, None);
}

#[test]
fn structured_prompt_formats() {
    let got = create_structured_prompt("CTX", "Q?");
    let expected = format!(
        "You are a precise analytical assistant. Follow these steps:\n\n1. First read and analyze this context:\n{}\n\n2. Now answer this query: {}\n\nFormat your response exactly like this:\nANALYSIS:\n[Your analysis of the key points from the context]\n\nANSWER:\n[Your direct answer to the query]\n\nEND_RESPONSE",
        "CTX", "Q?"
    );
    assert_eq!(got, expected);
}

#[test]
fn json_prompt_formats() {
    let got = create_json_prompt("CTX", "Q?");
    let expected = format!(
        "Analyze the following context and answer the query. \nFormat your response as a valid JSON object with 'analysis' and 'answer' fields.\n\nCONTEXT:\n{}\n\nQUERY:\n{}\n\nRespond in this exact format:\n{{\n    \"analysis\": \"your analysis here\",\n    \"answer\": \"your answer here\"\n}}\nEND_JSON",
        "CTX", "Q?"
    );
    assert_eq!(got, expected);
}

#[test]
fn list_prompt_formats() {
    let got = create_list_prompt("CTX", "Q?");
    let expected = format!(
        "Based on this context:\n{}\n\nAnswer this query: {}\n\nFormat your response exactly as follows:\nKEY_POINTS:\n1.\n2.\n3.\n\nANSWER:\n- \n\nEND_LIST",
        "CTX", "Q?"
    );
    assert_eq!(got, expected);
}

#[test]
fn history_records_hold_their_fields() {
    let msg = levchat::history::Message {
        id: None,
        chat_id: 3,
        content: "hi".to_string(),
        is_user: true,
        timestamp: "2024-01-01T00:00:00".to_string(),
    };
    assert!(msg.id.is_none());
    assert_eq!(msg.chat_id, 3);
    let chat = levchat::history::Chat {
        id: 1,
        name: "first".to_string(),
        created_at: "2024-01-01T00:00:00".to_string(),
    };
    assert_eq!(chat.name, "first");
}
