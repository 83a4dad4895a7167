use pixel_pal::gpt::{
    ChatMessage, CompletionError, CompletionResponse, MessageChoice, Role, ServerResponse, TokenUsage,
};

fn choice(index: u32, role: Role, content: &str) -> MessageChoice {
    MessageChoice {
        message: ChatMessage { role, content: content.to_string() },
        finish_reason: "stop".to_string(),
        index,
    }
}

fn response(choices: Vec<MessageChoice>) -> CompletionResponse {
    CompletionResponse {
        message_id: Some("cmpl-1".to_string()),
        created_timestamp: Some(1_700_000_000),
        model: "gpt-4".to_string(),
        usage: TokenUsage { prompt_tokens: 12, completion_tokens: 5, total_tokens: 17 },
        message_choices: choices,
    }
}

#[test]
fn message_is_that_of_the_first_choice() {
    let reply = response(vec![
        choice(0, Role::Assistant, "WALK UP 3"),
        choice(1, Role::Assistant, "RUN LEFT"),
    ]);
    assert_eq!(reply.message().content, "WALK UP 3");
    assert_eq!(reply.message().role, Role::Assistant);
    let single = response(vec![choice(0, Role::System, "")]);
    assert_eq!(*single.message(), ChatMessage { role: Role::System, content: String::new() });
}

#[test]
fn server_response_is_an_error_or_a_completion() {
    let refused = ServerResponse::Error {
        error: CompletionError { message: "quota".to_string(), error_type: "billing".to_string() },
    };
    let done = ServerResponse::Completion(response(vec![choice(0, Role::User, "hi")]));
    assert_ne!(refused, done);
    match done {
        ServerResponse::Completion(reply) => assert_eq!(reply.usage.total_tokens, 17),
        ServerResponse::Error { .. } => panic!("a completion was built"),
    }
}

#[test]
fn roles_are_ordered_as_declared() {
    assert!(Role::System < Role::Assistant);
    assert!(Role::Assistant < Role::User);
    assert!(Role::User < Role::Function);
}
