//! Requests to deploy an image: who may make them, what they do and how they are answered.

use vstd::prelude::*;
use vstd::utf8::encode_utf8;

use crate::config::{
    checked_config, is_sound, keeps_rules, law_each_image_is_found, AppConfig, ConfigView, RawConfigView,
};
use crate::engine::{outcome_views, ContainerReplaceOutcome, OutcomeView, ReplaceStatus};
use crate::error::{outcome, AppError, ErrorView};
use crate::percent::{
    is_form_of, law_every_form_is_decoded, percent_decode, percent_decoded_text,
};
use crate::status::StatusCode;
use crate::text::{law_prefix_is_taken_off, str_eq, strip_prefix, stripped, trimmed};

verus! {

// ---- Who may deploy ----

/// The image that the last part of a request's path names.
pub open spec fn decoded_image_ref(encoded: Seq<char>) -> Result<Seq<char>, ErrorView> {
    match percent_decoded_text(encoded) {
        Some(image_ref) => if image_ref.len() == 0 {
            Err(ErrorView::InvalidImageReference)
        } else {
            Ok(image_ref)
        },
        None => Err(ErrorView::InvalidImageReference),
    }
}

/// The bytes of a header are text: each is a visible ASCII character, a space or a tab.
pub open spec fn is_header_text(bytes: Seq<u8>) -> bool {
    forall|i: int| 0 <= i < bytes.len() ==> (#[trigger] bytes[i] == 9 || 32 <= bytes[i] <= 126)
}

/// The text of such bytes.
pub open spec fn header_text(bytes: Seq<u8>) -> Seq<char> {
    Seq::new(bytes.len(), |i: int| bytes[i] as char)
}

/// The token that an `Authorization` header carries.
pub open spec fn bearer_token(header: Option<Seq<u8>>) -> Result<Seq<char>, ErrorView> {
    match header {
        Some(bytes) => if is_header_text(bytes) {
            match stripped(header_text(bytes), "Bearer "@) {
                Some(token) => Ok(token),
                None => Err(ErrorView::MissingBearerToken),
            }
        } else {
            Err(ErrorView::MissingBearerToken)
        },
        None => Err(ErrorView::MissingBearerToken),
    }
}

/// The image that a request may deploy, given the last part of its path and its `Authorization`
/// header.
pub open spec fn authorized_image(
    config: ConfigView,
    encoded: Seq<char>,
    header: Option<Seq<u8>>,
) -> Result<Seq<char>, ErrorView> {
    match decoded_image_ref(encoded) {
        Err(err) => Err(err),
        Ok(image_ref) => if !config.policies.contains_key(image_ref) {
            Err(ErrorView::UnknownImage)
        } else {
            match bearer_token(header) {
                Err(err) => Err(err),
                Ok(token) => if token != config.policies[image_ref].bearer_token {
                    Err(ErrorView::Unauthorized)
                } else {
                    Ok(image_ref)
                },
            }
        },
    }
}

/// The bytes of an optional header.
pub open spec fn header_bytes(header: Option<&[u8]>) -> Option<Seq<u8>> {
    match header {
        Some(bytes) => Some(bytes@),
        None => None,
    }
}

/// `http::HeaderValue::to_str`, on the header with the given bytes, gives their text where each is
/// a visible ASCII character, a space or a tab, and an error where one is not. `from_bytes`, which
/// makes the header, accepts all of these bytes.
#[verifier::external_body]
fn header_to_str(bytes: &[u8]) -> (res: Option<String>)
    ensures
        res is Some <==> is_header_text(bytes@),
        res is Some ==> res->0@ == header_text(bytes@),
{
    let header = http::HeaderValue::from_bytes(bytes).ok()?;
    header.to_str().ok().map(|text| text.to_owned())
}

/// The image that the last part of a request's path names.
pub fn decode_image_ref(encoded_image_ref: &str) -> (res: Result<String, AppError>)
    ensures
        outcome(res) == decoded_image_ref(encoded_image_ref@),
{
    match percent_decode(encoded_image_ref) {
        Some(decoded) => {
            if decoded.as_str().is_empty() {
                return Err(AppError::InvalidImageReference);
            }
            Ok(decoded)
        },
        None => Err(AppError::InvalidImageReference),
    }
}

/// The token that an `Authorization` header carries. The argument is what the header holds, where
/// there is one.
pub fn extract_bearer_token(header: Option<&[u8]>) -> (res: Result<String, AppError>)
    ensures
        outcome(res) == bearer_token(header_bytes(header)),
{
    let bytes = match header {
        Some(bytes) => bytes,
        None => {
            return Err(AppError::MissingBearerToken);
        },
    };
    let value = match header_to_str(bytes) {
        Some(value) => value,
        None => {
            return Err(AppError::MissingBearerToken);
        },
    };
    match strip_prefix(value.as_str(), "Bearer ") {
        Some(token) => Ok(token),
        None => Err(AppError::MissingBearerToken),
    }
}

/// The image that a request may deploy, given the last part of its path and what its
/// `Authorization` header holds.
pub fn authorize(config: &AppConfig, encoded_image_ref: &str, header: Option<&[u8]>) -> (res:
    Result<String, AppError>)
    ensures
        outcome(res) == authorized_image(config@, encoded_image_ref@, header_bytes(header)),
{
    let image_ref = match decode_image_ref(encoded_image_ref) {
        Ok(image_ref) => image_ref,
        Err(err) => {
            return Err(err);
        },
    };
    let policy = match config.image_policies.get(image_ref.as_str()) {
        Some(policy) => policy,
        None => {
            return Err(AppError::UnknownImage);
        },
    };
    let token = match extract_bearer_token(header) {
        Ok(token) => token,
        Err(err) => {
            return Err(err);
        },
    };
    if !str_eq(token.as_str(), policy.bearer_token.as_str()) {
        return Err(AppError::Unauthorized);
    }
    Ok(image_ref)
}

/// A request is let through exactly where its path names an image of the configuration and its
/// header carries the token of that image.
pub proof fn law_authorized_exactly_with_token(
    config: ConfigView,
    encoded: Seq<char>,
    header: Option<Seq<u8>>,
    image_ref: Seq<char>,
)
    ensures
        authorized_image(config, encoded, header) == Ok::<Seq<char>, ErrorView>(image_ref) <==> {
            &&& decoded_image_ref(encoded) == Ok::<Seq<char>, ErrorView>(image_ref)
            &&& config.policies.contains_key(image_ref)
            &&& bearer_token(header) == Ok::<Seq<char>, ErrorView>(
                config.policies[image_ref].bearer_token,
            )
        },
{
}

/// How a request that is not let through is answered: with 400 where its path names no image, else
/// with 404 where the image is not in the configuration, else with 401, whether the token is
/// missing or wrong.
pub proof fn law_refused_requests_are_answered(
    config: ConfigView,
    encoded: Seq<char>,
    header: Option<Seq<u8>>,
)
    requires
        authorized_image(config, encoded, header) is Err,
    ensures
        authorized_image(config, encoded, header)->Err_0.status() == (if decoded_image_ref(
            encoded,
        ) is Err {
            400u16
        } else if !config.policies.contains_key(decoded_image_ref(encoded)->Ok_0) {
            404u16
        } else {
            401u16
        }),
{
}

/// The refusal of a request tells nothing of the tokens in the configuration: it depends on them
/// only in whether the request is refused.
pub proof fn law_refusals_hide_tokens(
    first: ConfigView,
    second: ConfigView,
    encoded: Seq<char>,
    header: Option<Seq<u8>>,
)
    requires
        first.policies.dom() == second.policies.dom(),
        authorized_image(first, encoded, header) is Err,
        authorized_image(second, encoded, header) is Err,
    ensures
        authorized_image(first, encoded, header) == authorized_image(second, encoded, header),
{
    if decoded_image_ref(encoded) is Ok {
        let image_ref = decoded_image_ref(encoded)->Ok_0;
        assert(first.policies.dom().contains(image_ref) == second.policies.dom().contains(
            image_ref,
        ));
    }
}

/// The header bytes that carry a token.
pub open spec fn token_header(token: Seq<char>) -> Seq<u8> {
    ("Bearer "@ + token).map_values(|c: char| c as u8)
}

/// The token of a header is the one that was put there, where it is printable ASCII.
pub proof fn law_token_is_carried(token: Seq<char>)
    requires
        forall|i: int|
            0 <= i < token.len() ==> (#[trigger] token[i] == '\t' || ' ' <= token[i] <= '~'),
    ensures
        bearer_token(Some(token_header(token))) == Ok::<Seq<char>, ErrorView>(token),
{
    reveal_strlit("Bearer ");
    let text = "Bearer "@ + token;
    let bytes = token_header(token);
    assert forall|i: int| 0 <= i < bytes.len() implies {
        &&& (#[trigger] bytes[i] == 9 || 32 <= bytes[i] <= 126)
        &&& bytes[i] as char == text[i]
    } by {
        if i >= 7 {
            assert(text[i] == token[i - 7]);
        }
    }
    assert(header_text(bytes) =~= text);
    assert(text.take(7) =~= "Bearer "@);
    assert(text.skip(7) =~= token);
}

/// A request that names an image of the configuration in any percent-encoded form, with the token
/// of that image, is let through.
pub proof fn law_listed_image_is_let_through(
    config: ConfigView,
    image_ref: Seq<char>,
    form: Seq<char>,
)
    requires
        is_form_of(encode_utf8(form), encode_utf8(image_ref)),
        config.policies.contains_key(image_ref),
        image_ref.len() > 0,
        forall|i: int|
            0 <= i < config.policies[image_ref].bearer_token.len() ==> (
            #[trigger] config.policies[image_ref].bearer_token[i] == '\t' || ' '
                <= config.policies[image_ref].bearer_token[i] <= '~'),
    ensures
        authorized_image(
            config,
            form,
            Some(token_header(config.policies[image_ref].bearer_token)),
        ) == Ok::<Seq<char>, ErrorView>(image_ref),
{
    law_every_form_is_decoded(form, image_ref);
    law_token_is_carried(config.policies[image_ref].bearer_token);
}

/// Each image of an accepted configuration file can be deployed by a request that names it in any
/// percent-encoded form, with its token, both without the white space around them in the file.
pub proof fn law_configured_image_can_be_deployed(raw: RawConfigView, i: int, form: Seq<char>)
    requires
        keeps_rules(raw.images),
        0 <= i < raw.images.len(),
        is_form_of(encode_utf8(form), encode_utf8(trimmed(raw.images[i].image_ref))),
        forall|j: int|
            0 <= j < trimmed(raw.images[i].bearer_token).len() ==> (
            #[trigger] trimmed(raw.images[i].bearer_token)[j] == '\t' || ' '
                <= trimmed(raw.images[i].bearer_token)[j] <= '~'),
    ensures
        checked_config(raw) is Ok,
        authorized_image(
            checked_config(raw)->Ok_0,
            form,
            Some(token_header(trimmed(raw.images[i].bearer_token))),
        ) == Ok::<Seq<char>, ErrorView>(trimmed(raw.images[i].image_ref)),
{
    law_each_image_is_found(raw);
    let name = trimmed(raw.images[i].image_ref);
    assert(is_sound(raw.images, i));
    law_listed_image_is_let_through(checked_config(raw)->Ok_0, name, form);
}

// ---- The answer to a request that was carried out ----

/// The answer to a request that was carried out.
#[derive(Debug, Clone, PartialEq)]
pub struct DeployResponse {
    pub trace_id: String,
    pub image_ref: String,
    pub bytes_received: u64,
    pub replaced: usize,
    pub failed: usize,
    pub containers: Vec<ContainerReplaceOutcome>,
}

/// What an answer says.
pub struct ResponseView {
    pub trace_id: Seq<char>,
    pub image_ref: Seq<char>,
    pub bytes_received: int,
    pub replaced: int,
    pub failed: int,
    pub containers: Seq<OutcomeView>,
}

impl View for DeployResponse {
    type V = ResponseView;

    open spec fn view(&self) -> ResponseView {
        ResponseView {
            trace_id: self.trace_id@,
            image_ref: self.image_ref@,
            bytes_received: self.bytes_received as int,
            replaced: self.replaced as int,
            failed: self.failed as int,
            containers: outcome_views(self.containers@),
        }
    }
}

/// How many of the outcomes are replacements.
pub open spec fn count_replaced(outcomes: Seq<OutcomeView>) -> nat
    decreases outcomes.len(),
{
    if outcomes.len() == 0 {
        0
    } else {
        count_replaced(outcomes.drop_last()) + (if outcomes.last().status is Replaced {
            1nat
        } else {
            0nat
        })
    }
}

/// The answer that sums up the given outcomes.
pub open spec fn summed_up(
    trace_id: Seq<char>,
    image_ref: Seq<char>,
    bytes_received: int,
    outcomes: Seq<OutcomeView>,
) -> ResponseView {
    ResponseView {
        trace_id,
        image_ref,
        bytes_received,
        replaced: count_replaced(outcomes) as int,
        failed: outcomes.len() - count_replaced(outcomes),
        containers: outcomes,
    }
}

impl ResponseView {
    /// The status of the answer: 200 where every container was replaced, 502 where one was not.
    pub open spec fn status(self) -> u16 {
        if self.failed == 0 {
            200
        } else {
            502
        }
    }
}

proof fn lemma_count_bounded(outcomes: Seq<OutcomeView>)
    ensures
        count_replaced(outcomes) <= outcomes.len(),
    decreases outcomes.len(),
{
    if outcomes.len() > 0 {
        lemma_count_bounded(outcomes.drop_last());
    }
}

impl DeployResponse {
    /// The answer that sums up the given outcomes.
    pub fn summarize(
        trace_id: String,
        image_ref: String,
        bytes_received: u64,
        containers: Vec<ContainerReplaceOutcome>,
    ) -> (res: DeployResponse)
        ensures
            res@ == summed_up(
                trace_id@,
                image_ref@,
                bytes_received as int,
                outcome_views(containers@),
            ),
    {
        let ghost views = outcome_views(containers@);
        let mut replaced: usize = 0;
        let mut i: usize = 0;
        while i < containers.len()
            invariant
                0 <= i <= containers@.len(),
                views == outcome_views(containers@),
                replaced == count_replaced(views.take(i as int)),
                replaced <= i,
            decreases containers@.len() - i,
        {
            assert(views.take(i + 1).drop_last() == views.take(i as int));
            if matches!(containers[i].status, ReplaceStatus::Replaced) {
                replaced = replaced + 1;
            }
            i = i + 1;
        }
        assert(views.take(i as int) == views);
        let failed: usize = containers.len() - replaced;
        DeployResponse { trace_id, image_ref, bytes_received, replaced, failed, containers }
    }

    /// The status of the answer: 200 where every container was replaced, 502 where one was not.
    pub fn status_code(&self) -> (res: StatusCode)
        ensures
            res@ == self@.status(),
    {
        if self.failed == 0 {
            StatusCode::of(200)
        } else {
            StatusCode::of(502)
        }
    }
}

/// The replaced and the failed containers of an answer are all that it lists, and it has the status
/// 200 exactly where each of them was replaced.
pub proof fn law_answer_counts_each_container(
    trace_id: Seq<char>,
    image_ref: Seq<char>,
    bytes_received: int,
    outcomes: Seq<OutcomeView>,
)
    ensures
        ({
            let answer = summed_up(trace_id, image_ref, bytes_received, outcomes);
            &&& 0 <= answer.replaced
            &&& 0 <= answer.failed
            &&& answer.replaced + answer.failed == outcomes.len()
            &&& answer.status() == 200 <==> forall|i: int|
                0 <= i < outcomes.len() ==> (#[trigger] outcomes[i]).status is Replaced
        }),
{
    lemma_count_bounded(outcomes);
    lemma_count_is_full(outcomes);
}

proof fn lemma_count_is_full(outcomes: Seq<OutcomeView>)
    ensures
        count_replaced(outcomes) == outcomes.len() <==> forall|i: int|
            0 <= i < outcomes.len() ==> (#[trigger] outcomes[i]).status is Replaced,
    decreases outcomes.len(),
{
    if outcomes.len() > 0 {
        let rest = outcomes.drop_last();
        lemma_count_bounded(rest);
        lemma_count_is_full(rest);
        if count_replaced(outcomes) == outcomes.len() {
            assert forall|i: int| 0 <= i < outcomes.len() implies (
            #[trigger] outcomes[i]).status is Replaced by {
                if i < rest.len() {
                    assert(rest[i] == outcomes[i]);
                }
            }
        }
        if forall|i: int| 0 <= i < outcomes.len() ==> (#[trigger] outcomes[i]).status is Replaced {
            assert forall|i: int| 0 <= i < rest.len() implies (
            #[trigger] rest[i]).status is Replaced by {
                assert(rest[i] == outcomes[i]);
            }
            assert(outcomes[outcomes.len() - 1].status is Replaced);
        }
    }
}

/// Nothing but a header that is made of `Bearer`, a space and printable ASCII characters or tabs
/// carries a token, and the token is all that follows the space.
pub proof fn law_only_bearer_headers_carry_tokens(header: Option<Seq<u8>>)
    ensures
        header is None ==> bearer_token(header) is Err,
        bearer_token(header) is Err ==> bearer_token(header)->Err_0 is MissingBearerToken,
        bearer_token(header) is Ok ==> {
            let token = bearer_token(header)->Ok_0;
            &&& header == Some(token_header(token))
            &&& forall|i: int|
                0 <= i < token.len() ==> (#[trigger] token[i] == '\t' || ' ' <= token[i] <= '~')
        },
{
    if bearer_token(header) is Ok {
        let bytes = header->0;
        let text = header_text(bytes);
        let token = bearer_token(header)->Ok_0;
        law_prefix_is_taken_off("Bearer "@, token, text);
        reveal_strlit("Bearer ");
        assert(text =~= "Bearer "@ + token);
        assert forall|i: int| 0 <= i < bytes.len() implies #[trigger] bytes[i] == token_header(
            token,
        )[i] by {
            assert(text[i] == bytes[i] as char);
            assert(text[i] as u8 == bytes[i]);
        }
        assert(bytes =~= token_header(token));
        assert forall|i: int| 0 <= i < token.len() implies (#[trigger] token[i] == '\t' || ' '
            <= token[i] <= '~') by {
            assert(token[i] == text[i + 7]);
            assert(text[i + 7] == bytes[i + 7] as char);
            assert(bytes[i + 7] == 9 || 32 <= bytes[i + 7] <= 126);
        }
    }
}

/// A path names the text that it is a percent-encoded form of, where that is not empty, and nothing
/// that it does not decode to.
pub proof fn law_path_names_the_decoded_image(form: Seq<char>, text: Seq<char>)
    ensures
        is_form_of(encode_utf8(form), encode_utf8(text)) && text.len() > 0 ==> decoded_image_ref(
            form,
        ) == Ok::<Seq<char>, ErrorView>(text),
        decoded_image_ref(form) == Ok::<Seq<char>, ErrorView>(text) <==> (percent_decoded_text(form)
            == Some(text) && text.len() > 0),
        decoded_image_ref(form) is Err ==> decoded_image_ref(form)->Err_0 is InvalidImageReference,
{
    if is_form_of(encode_utf8(form), encode_utf8(text)) {
        law_every_form_is_decoded(form, text);
    }
}

/// A request that is not let through is told why: the path names no image, else the image is not in
/// the configuration, else there is no token, else it is not the one of the image.
pub proof fn law_refusals_name_the_reason(
    config: ConfigView,
    encoded: Seq<char>,
    header: Option<Seq<u8>>,
)
    requires
        authorized_image(config, encoded, header) is Err,
    ensures
        ({
            let error = authorized_image(config, encoded, header)->Err_0;
            let image_ref = decoded_image_ref(encoded);
            &&& error is InvalidImageReference <==> image_ref is Err
            &&& error is UnknownImage <==> image_ref is Ok && !config.policies.contains_key(
                image_ref->Ok_0,
            )
            &&& error is MissingBearerToken <==> {
                &&& image_ref is Ok
                &&& config.policies.contains_key(image_ref->Ok_0)
                &&& bearer_token(header) is Err
            }
            &&& error is Unauthorized <==> {
                &&& image_ref is Ok
                &&& config.policies.contains_key(image_ref->Ok_0)
                &&& bearer_token(header) is Ok
                &&& bearer_token(header)->Ok_0 != config.policies[image_ref->Ok_0].bearer_token
            }
        }),
{
}

/// An answer passes on what it sums up, and counts each replaced container once: two lists of
/// outcomes one after the other have the sum of their counts, and a single outcome counts exactly
/// where it says that the container was replaced.
pub proof fn law_answer_sums_up(
    trace_id: Seq<char>,
    image_ref: Seq<char>,
    bytes_received: int,
    first: Seq<OutcomeView>,
    second: Seq<OutcomeView>,
    one: OutcomeView,
)
    ensures
        ({
            let answer = summed_up(trace_id, image_ref, bytes_received, first);
            &&& answer.trace_id == trace_id
            &&& answer.image_ref == image_ref
            &&& answer.bytes_received == bytes_received
            &&& answer.containers == first
            &&& answer.status() == 200 || answer.status() == 502
        }),
        summed_up(trace_id, image_ref, bytes_received, first + second).replaced == summed_up(
            trace_id,
            image_ref,
            bytes_received,
            first,
        ).replaced + summed_up(trace_id, image_ref, bytes_received, second).replaced,
        summed_up(trace_id, image_ref, bytes_received, seq![one]).replaced == (if one.status
            is Replaced {
            1int
        } else {
            0int
        }),
{
    lemma_counts_add_up(first, second);
    reveal_with_fuel(count_replaced, 2);
    assert(seq![one].drop_last() =~= seq![]);
}

proof fn lemma_counts_add_up(first: Seq<OutcomeView>, second: Seq<OutcomeView>)
    ensures
        count_replaced(first + second) == count_replaced(first) + count_replaced(second),
    decreases second.len(),
{
    if second.len() > 0 {
        lemma_counts_add_up(first, second.drop_last());
        assert((first + second).drop_last() =~= first + second.drop_last());
        assert((first + second).last() == second.last());
    } else {
        assert(first + second =~= first);
    }
}

/// What an answer says is what stands in its fields, and what a header says is what it holds.
pub proof fn law_answer_says_what_it_holds(response: DeployResponse, header: Option<&[u8]>)
    ensures
        response@.trace_id == response.trace_id@,
        response@.image_ref == response.image_ref@,
        response@.bytes_received == response.bytes_received,
        response@.replaced == response.replaced,
        response@.failed == response.failed,
        response@.containers == outcome_views(response.containers@),
        header is Some ==> header_bytes(header) == Some(header->0@),
        header is None ==> header_bytes(header) is None,
{
}

} // verus!
