//! What an Ollama server's generate endpoint is asked: the url and the JSON
//! body of a non-streaming request.
use vstd::prelude::*;

use crate::json::{json_text, model, object, to_json_text, Json, JsonValue};

verus! {

/// The generate endpoint under the server url `base_url`.
pub open spec fn generate_url_text(base_url: Seq<char>) -> Seq<char> {
    base_url + "/api/generate"@
}

/// The request: the model, the prompt, and no streaming.
pub open spec fn request_json(model_name: Seq<char>, prompt: Seq<char>) -> Json {
    Json::Object(
        seq![
            ("model"@, Json::Str(model_name)),
            ("prompt"@, Json::Str(prompt)),
            ("stream"@, Json::Bool(false)),
        ],
    )
}

/// The url of the generate endpoint of the server at `base_url`.
pub fn generate_url(base_url: &str) -> (r: String)
    ensures
        r@ == generate_url_text(base_url@),
{
    let mut url = String::new();
    url.append(base_url);
    url.append("/api/generate");
    url
}

/// The JSON text of a non-streaming generate request for `model_name` and `prompt`.
pub fn request_body(model_name: &str, prompt: &str) -> (r: String)
    ensures
        r@ == json_text(request_json(model_name@, prompt@)),
{
    let entries = vec![
        ("model".to_owned(), JsonValue::Str(model_name.to_owned())),
        ("prompt".to_owned(), JsonValue::Str(prompt.to_owned())),
        ("stream".to_owned(), JsonValue::Bool(false)),
    ];
    assert(entries@.map_values(|e: (String, JsonValue)| (e.0@, model(e.1)))
        =~= request_json(model_name@, prompt@)->Object_0);
    proof {
        reveal_strlit("model");
        reveal_strlit("prompt");
        reveal_strlit("stream");
        assert(entries@[0].0@.len() != entries@[1].0@.len());
        assert(entries@[0].0@.len() != entries@[2].0@.len());
        assert(entries@[1].0@[0] != entries@[2].0@[0]);
    }
    let body = object(entries);
    to_json_text(&body)
}

} // verus!
