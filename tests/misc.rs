use emale::api::{
    movie_key, movie_search_url, movies_found, save_movie_step, saved_movie_answer, MovieDetailBody, MovieLookup, SaveMovieStep,
    SearchQueryParams,
};
use emale::errors::error_chain_text;
use emale::idempotency::KeyError;
use emale::auth::{basic_authentication, check_new_password, credentials_from_decoded, BasicAuthError, PasswordChangeError};
use emale::domain::{confirm_step, confirmation_status, ConfirmStep, confirmation_email, generate_subs_token, valid_email, NewSubscriber, SubscribeFormData, SubscriberEmail};
use emale::errors::{apperror_400, apperror_500, AppError, AppErrorType, AuthError, Environment, SubscribeError};
use emale::todo::{mark_done, parse_item, parse_todos, render_todos, render_with_line, Status, Todos};

#[test]
fn environments_read_in_any_case() {
    assert_eq!(Environment::try_from("LoCaL".to_string()).unwrap(), Environment::Local);
    assert_eq!(Environment::try_from("PRODUCTION".to_string()).unwrap(), Environment::Production);
    assert_eq!(
        Environment::try_from("Staging".to_string()).unwrap_err(),
        "staging is not supported environment.Use local or production"
    );
    assert_eq!(Environment::from_lowercase("local".to_string()).unwrap(), Environment::Local);
    assert!(Environment::from_lowercase("Local".to_string()).is_err());
    assert_eq!(Environment::Local.as_str(), "local");
    assert_eq!(Environment::Production.as_str(), "production");
}

#[test]
fn app_errors_carry_status_and_message() {
    let e = apperror_500(None);
    assert_eq!(e.status_code(), 500);
    assert_eq!(e.message(), "An unexpected error has occured");
    let e = apperror_400(Some("bad".to_string()));
    assert_eq!(e.status_code(), 400);
    assert_eq!(e.message(), "bad");
    let e = AppError { message: None, cause: None, error_type: AppErrorType::NotFoundError };
    assert_eq!(e.status_code(), 404);
    let e = AppError { message: None, cause: None, error_type: AppErrorType::UnauthorizedErorr };
    assert_eq!(e.status_code(), 401);
    assert_eq!(AuthError::InvalidCredential("x".to_string()).status_code(), 401);
    assert_eq!(AuthError::UnexpectedError("x".to_string()).status_code(), 500);
    assert_eq!(SubscribeError::ValidationError("x".to_string()).status_code(), 400);
    assert_eq!(SubscribeError::UnexpectedError("x".to_string()).status_code(), 500);
}

#[test]
fn basic_credentials_are_decoded() {
    // "user:pa:ss" in base64
    let c = basic_authentication("Basic dXNlcjpwYTpzcw==").unwrap();
    assert_eq!(c.username, "user");
    assert_eq!(c.password, "pa:ss");
    assert_eq!(basic_authentication("Bearer abc").unwrap_err(), BasicAuthError::NotBasicScheme);
    assert_eq!(basic_authentication("Basic").unwrap_err(), BasicAuthError::NotBasicScheme);
    assert_eq!(basic_authentication("Basic !!!").unwrap_err(), BasicAuthError::InvalidBase64);
    // "user" without a colon
    assert_eq!(basic_authentication("Basic dXNlcg==").unwrap_err(), BasicAuthError::MissingPassword);
    // 0xff is not UTF-8
    assert_eq!(basic_authentication("Basic /w==").unwrap_err(), BasicAuthError::InvalidUtf8);
    assert_eq!(credentials_from_decoded(None).unwrap_err(), BasicAuthError::InvalidBase64);
    let c = credentials_from_decoded(Some(b":".to_vec())).unwrap();
    assert_eq!((c.username.as_str(), c.password.as_str()), ("", ""));
}

#[test]
fn new_passwords_are_checked() {
    assert_eq!(check_new_password("short", "short"), Err(PasswordChangeError::BadLength));
    let long = "a".repeat(129);
    assert_eq!(check_new_password(&long, &long), Err(PasswordChangeError::BadLength));
    assert_eq!(check_new_password("123456789012", "123456789013"), Err(PasswordChangeError::Mismatch));
    assert_eq!(check_new_password("123456789012", "123456789012"), Ok(()));
    let limit = "a".repeat(128);
    assert_eq!(check_new_password(&limit, &limit), Err(PasswordChangeError::BadLength));
    let max = "a".repeat(127);
    assert_eq!(check_new_password(&max, &max), Ok(()));
    let twelve = "a".repeat(12);
    assert_eq!(check_new_password(&twelve, &twelve), Ok(()));
    assert_eq!(
        PasswordChangeError::Mismatch.message(),
        "You entered two different new passwords - the fieid values must match"
    );
    assert_eq!(
        PasswordChangeError::BadLength.message(),
        "Password must be longer than 12 characters and less than 128 characters"
    );
}

#[test]
fn email_addresses_are_checked() {
    assert!(valid_email("nc_nocap@gmail.com"));
    assert!(!valid_email("wrong-email-format"));
    assert!(!valid_email(""));
    assert!(!valid_email("@gmail.com"));
    assert!(!valid_email("a@"));
    assert!(!valid_email("a@@b"));
    assert!(!valid_email("a b@c"));
    assert_eq!(SubscriberEmail::parse("x@y".to_string()).unwrap().as_str(), "x@y");
    assert_eq!(SubscriberEmail::parse("xy".to_string()).unwrap_err(), "xy is not a valid subscriber email.");
}

#[test]
fn subscription_forms_are_validated() {
    let ok = NewSubscriber::try_from(SubscribeFormData { name: "nc nocap".to_string(), email: "nc_nocap@gmail.com".to_string() }).unwrap();
    assert_eq!(ok.name.as_str(), "nc nocap");
    assert_eq!(ok.email.as_str(), "nc_nocap@gmail.com");
    assert!(NewSubscriber::try_from(SubscribeFormData { name: "".to_string(), email: "nc_nocap@gmail.com".to_string() }).is_err());
    let err = NewSubscriber::try_from(SubscribeFormData { name: "nocap".to_string(), email: "wrong-email-format".to_string() }).unwrap_err();
    assert_eq!(err, "wrong-email-format is not a valid subscriber email.");
}

#[test]
fn subscription_tokens_are_twenty_alphanumerics() {
    let a = generate_subs_token();
    let b = generate_subs_token();
    assert_eq!(a.chars().count(), 20);
    assert!(a.chars().all(|c| c.is_ascii_alphanumeric()));
    assert_ne!(a, b);
}

#[test]
fn confirmation_emails_link_to_the_token() {
    let e = confirmation_email("http://127.0.0.1", "abc");
    assert_eq!(e.subject, "hello");
    assert_eq!(
        e.html_body,
        "Hello<br />Click <a href=\"http://127.0.0.1/subscribe/confirm?subscription_token=abc\"> here</a> to confirm"
    );
    assert_eq!(e.plain_body, e.html_body);
}

#[test]
fn search_defaults() {
    let q = SearchQueryParams { title: "cars".to_string(), movie_type: None, year: None, page: None };
    assert_eq!((q.year_or_default(), q.page_or_default()), (0, 1));
    let q = SearchQueryParams { title: "cars".to_string(), movie_type: None, year: Some(2006), page: Some(3) };
    assert_eq!((q.year_or_default(), q.page_or_default()), (2006, 3));
}

#[test]
fn todo_lines_are_parsed() {
    assert_eq!(parse_item("ongoing: buy milk"), Some((Status::Ongoing, "buy milk")));
    assert_eq!(parse_item("done: walk"), Some((Status::Done, "walk")));
    assert_eq!(parse_item("ongoing:no space"), None);
    assert_eq!(parse_item(""), None);
    let lines: Vec<String> = ["ongoing: a", "junk", "done: b", "ongoing: c"].iter().map(|s| s.to_string()).collect();
    let todos = parse_todos(&lines);
    assert_eq!(todos.ongoing, vec!["a", "c"]);
    assert_eq!(todos.done, vec!["b"]);
}

#[test]
fn todo_files_are_rendered() {
    let todos = Todos { ongoing: vec!["a".to_string(), "c".to_string()], done: vec!["b".to_string()] };
    assert_eq!(render_todos(&todos), "ongoing: a\nongoing: c\ndone: b\n");
    assert_eq!(mark_done(&todos, 1), "ongoing: a\ndone: c\ndone: b\n");
    assert_eq!(mark_done(&todos, 0), "done: a\nongoing: c\ndone: b\n");
    assert_eq!(render_with_line(&todos, 0, "X\n"), "X\nongoing: c\ndone: b\n");
    // str::replace strips every " ongoing:" of the line
    let odd = Todos { ongoing: vec!["x ongoing: y".to_string()], done: vec![] };
    assert_eq!(mark_done(&odd, 0), "done: x y\n");
}

#[test]
fn confirmation_steps() {
    assert_eq!(confirm_step(Err(())), ConfirmStep::Respond(500));
    assert_eq!(confirm_step(Ok(None)), ConfirmStep::Respond(401));
    assert_eq!(confirm_step(Ok(Some(9))), ConfirmStep::Confirm(9));
    assert_eq!(confirmation_status(true), 200);
    assert_eq!(confirmation_status(false), 500);
}

#[test]
fn saving_a_movie_twice_conflicts() {
    let key = movie_key("Cars");
    assert_eq!(key, "CARS");
    match save_movie_step(&key, MovieLookup::Found) {
        SaveMovieStep::Conflict(j) => {
            assert_eq!(j.status_code, 409);
            assert_eq!(j.message, "Movie with title CARS already exist");
            assert_eq!(j.body, "");
        }
        other => panic!("unexpected {:?}", other),
    }
    assert!(matches!(save_movie_step(&key, MovieLookup::NotFound), SaveMovieStep::Save));
    match save_movie_step(&key, MovieLookup::Failed) {
        SaveMovieStep::Fail(e) => {
            assert_eq!(e.status_code(), 500);
            assert!(e.message.is_none());
        }
        other => panic!("unexpected {:?}", other),
    }
}

#[test]
fn saved_movies_are_echoed() {
    let body = MovieDetailBody {
        imdb_id: "tt0317219".to_string(),
        user_id: 3,
        movie_name: "Cars".to_string(),
        plot: "A race car".to_string(),
        poster: "cars.jpg".to_string(),
    };
    let ok = saved_movie_answer(true, &body).unwrap();
    assert_eq!((ok.status_code, ok.message.as_str()), (200, "Save movie succesfull"));
    assert_eq!((ok.body.movie_name.as_str(), ok.body.plot.as_str(), ok.body.poster.as_str()), ("Cars", "A race car", "cars.jpg"));
    let err = saved_movie_answer(false, &body).unwrap_err();
    assert_eq!(err.status_code(), 500);
    assert!(err.message.is_none());
}

#[test]
fn movie_searches_address_omdb() {
    let q = SearchQueryParams { title: "titanic".to_string(), movie_type: None, year: None, page: None };
    assert_eq!(movie_search_url("KEY", &q), "http://www.omdbapi.com/?apikey=KEY&s=titanic&year=0&page=1");
    let q = SearchQueryParams { title: "cars".to_string(), movie_type: None, year: Some(2006), page: Some(12) };
    assert_eq!(movie_search_url("K", &q), "http://www.omdbapi.com/?apikey=K&s=cars&year=2006&page=12");
    let q = SearchQueryParams { title: "x".to_string(), movie_type: None, year: Some(u32::MAX), page: Some(10) };
    assert_eq!(movie_search_url("K", &q), "http://www.omdbapi.com/?apikey=K&s=x&year=4294967295&page=10");
    let found = movies_found(vec![1, 2]);
    assert_eq!((found.status_code, found.message.as_str(), found.body), (200, "Get movies successfull", vec![1, 2]));
}

#[test]
fn error_chains_list_every_cause() {
    let one = vec!["top".to_string()];
    assert_eq!(error_chain_text(&one), "top\n\n");
    let three = vec!["top".to_string(), "middle".to_string(), "root".to_string()];
    assert_eq!(error_chain_text(&three), "top\n\nCaused by:\n\tmiddle\nCaused by:\n\troot\n");
}

#[test]
fn key_error_messages() {
    assert_eq!(KeyError::Empty.message(), "The idempotency key cannot be empty");
    assert_eq!(KeyError::TooLong.message(), "The idempotency key must be at most 50 characters long");
    assert_eq!(
        KeyError::ForbiddenCharacter.message(),
        "The idempotency key may only hold letters, digits, '-' and '_'"
    );
}
