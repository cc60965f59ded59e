use vstd::prelude::*;
use vstd::string::*;

use crate::errors::{apperror_500, AppError, AppErrorType};
use crate::search::{hex_digit, hex_digit_str};

verus! {

/// Newsletter content as posted to the JSON publishing endpoint.
#[derive(Clone, Debug)]
pub struct Body {
    pub title: String,
    pub content: Content,
}

#[derive(Clone, Debug)]
pub struct Content {
    pub html: String,
    pub text: String,
}

/// Query of the subscription confirmation link.
#[derive(Clone, Debug)]
pub struct Parameters {
    pub subscription_token: String,
}

/// The public address of the application, used in confirmation links.
#[derive(Clone, Debug)]
pub struct ApplicationBaseUrl(pub String);

/// Where the API server listens.
#[derive(Clone, Debug)]
pub struct AppSettings {
    pub port: u16,
    pub host: String,
}

/// A user's login fields.
#[derive(Clone, Debug)]
pub struct User {
    pub email: String,
    pub password: String,
}

/// Query of a movie search.
#[derive(Clone, Debug)]
pub struct SearchQueryParams {
    pub title: String,
    pub movie_type: Option<String>,
    pub year: Option<u32>,
    pub page: Option<u32>,
}

impl SearchQueryParams {
    pub open spec fn year_or_default_spec(&self) -> u32 {
        match self.year {
            Some(y) => y,
            None => 0u32,
        }
    }

    pub open spec fn page_or_default_spec(&self) -> u32 {
        match self.page {
            Some(p) => p,
            None => 1u32,
        }
    }

    /// The year to search in; 0 searches all years.
    pub fn year_or_default(&self) -> (r: u32)
        ensures
            r == match self.year {
                Some(y) => y,
                None => 0u32,
            },
    {
        match self.year {
            Some(y) => y,
            None => 0,
        }
    }

    /// The result page to fetch; pages start at 1.
    pub fn page_or_default(&self) -> (r: u32)
        ensures
            r == match self.page {
                Some(p) => p,
                None => 1u32,
            },
    {
        match self.page {
            Some(p) => p,
            None => 1,
        }
    }
}

/// Query of a lookup by title.
#[derive(Clone, Debug)]
pub struct TitleQueryParams {
    pub title: String,
}

/// Query of a lookup by IMDb id.
#[derive(Clone, Debug)]
pub struct IdQueryParams {
    pub id: String,
}

/// Whose favourite movies to list.
#[derive(Clone, Debug)]
pub struct GetFavoriteMovieBody {
    pub user_id: i32,
}

/// One favourite movie as stored.
#[derive(Clone, Debug)]
pub struct GetFavoriteMoviesRecord {
    pub id: i32,
    pub movie_name: String,
    pub imdb_id: Option<String>,
    pub plot: Option<String>,
    pub poster: Option<String>,
}

/// A movie to save as a favourite.
#[derive(Clone, Debug)]
pub struct MovieDetailBody {
    pub imdb_id: String,
    pub user_id: i32,
    pub movie_name: String,
    pub plot: String,
    pub poster: String,
}

/// The envelope of every JSON answer of the movie API.
#[derive(Clone, Debug)]
pub struct JsonResponse<T> {
    pub status_code: u16,
    pub message: String,
    pub body: T,
}

/// `s` in upper case, as `str::to_uppercase` gives it.
pub uninterp spec fn upper_of(s: Seq<char>) -> Seq<char>;

/// Relies on `str::to_uppercase`: the result depends on the characters
/// alone.
#[verifier::external_body]
fn uppercase(s: &str) -> (r: String)
    ensures
        r@ == upper_of(s@),
{
    s.to_uppercase()
}

/// The name under which a favourite movie is stored: its title in upper
/// case, so that titles differing in case are the same movie.
pub fn movie_key(movie_name: &str) -> (r: String)
    ensures
        r@ == upper_of(movie_name@),
{
    uppercase(movie_name)
}

/// What looking a favourite movie up found.
#[derive(Clone, Copy, Debug, PartialEq, Eq, Structural)]
pub enum MovieLookup {
    Found,
    NotFound,
    Failed,
}

/// What saving a favourite movie does next.
#[derive(Debug)]
pub enum SaveMovieStep {
    /// Answer 409 with this envelope: the user already saved the movie.
    Conflict(JsonResponse<String>),
    /// Store the movie, then answer with `saved_movie_answer`.
    Save,
    /// Answer with this error.
    Fail(AppError),
}

/// Decides from the lookup of the movie stored under `key`.
pub fn save_movie_step(key: &str, lookup: MovieLookup) -> (r: SaveMovieStep)
    ensures
        match lookup {
            MovieLookup::Found => r matches SaveMovieStep::Conflict(j) && j.status_code == 409 && j.message@
                == "Movie with title "@ + key@ + " already exist"@ && j.body@ == ""@,
            MovieLookup::NotFound => r is Save,
            MovieLookup::Failed => r matches SaveMovieStep::Fail(e) && e.error_type == AppErrorType::InternalError
                && e.message is None && e.cause is None,
        },
{
    match lookup {
        MovieLookup::Found => {
            let mut m = String::from_str("Movie with title ");
            m.append(key);
            m.append(" already exist");
            SaveMovieStep::Conflict(JsonResponse { status_code: 409, message: m, body: String::from_str("") })
        },
        MovieLookup::NotFound => SaveMovieStep::Save,
        MovieLookup::Failed => SaveMovieStep::Fail(apperror_500(None)),
    }
}

/// The saved movie as the answer shows it.
#[derive(Clone, Debug)]
pub struct SavedMovie {
    pub movie_name: String,
    pub plot: String,
    pub poster: String,
}

/// The answer once storing the movie succeeded or not.
pub fn saved_movie_answer(saved: bool, body: &MovieDetailBody) -> (r: Result<JsonResponse<SavedMovie>, AppError>)
    ensures
        saved ==> (r matches Ok(j) && j.status_code == 200 && j.message@ == "Save movie succesfull"@
            && j.body.movie_name@ == body.movie_name@ && j.body.plot@ == body.plot@ && j.body.poster@ == body.poster@),
        !saved ==> (r matches Err(e) && e.error_type == AppErrorType::InternalError && e.message is None
            && e.cause is None),
{
    if saved {
        Ok(JsonResponse {
            status_code: 200,
            message: String::from_str("Save movie succesfull"),
            body: SavedMovie {
                movie_name: body.movie_name.clone(),
                plot: body.plot.clone(),
                poster: body.poster.clone(),
            },
        })
    } else {
        Err(apperror_500(None))
    }
}

/// The decimal digits of `n`, without leading zeros.
pub open spec fn decimal_of(n: nat) -> Seq<char>
    decreases n,
{
    if n < 10 {
        seq![hex_digit(n as u8)]
    } else {
        decimal_of(n / 10) + seq![hex_digit((n % 10) as u8)]
    }
}

fn append_decimal(out: &mut String, n: u32)
    ensures
        final(out)@ == old(out)@ + decimal_of(n as nat),
    decreases n,
{
    if n >= 10 {
        append_decimal(out, n / 10);
    }
    out.append(hex_digit_str((n % 10) as u8));
    assert(out@ =~= old(out)@ + decimal_of(n as nat));
}

pub open spec fn search_url_of(api_key: Seq<char>, title: Seq<char>, year: u32, page: u32) -> Seq<char> {
    "http://www.omdbapi.com/?apikey="@ + api_key + "&s="@ + title + "&year="@ + decimal_of(year as nat) + "&page="@
        + decimal_of(page as nat)
}

/// The OMDb address of a movie search: all years when none is given, the
/// first page when none is given.
pub fn movie_search_url(api_key: &str, query: &SearchQueryParams) -> (r: String)
    ensures
        r@ == search_url_of(api_key@, query.title@, query.year_or_default_spec(), query.page_or_default_spec()),
{
    let mut url = String::from_str("http://www.omdbapi.com/?apikey=");
    url.append(api_key);
    url.append("&s=");
    url.append(query.title.as_str());
    url.append("&year=");
    append_decimal(&mut url, query.year_or_default());
    url.append("&page=");
    append_decimal(&mut url, query.page_or_default());
    assert(url@ =~= search_url_of(api_key@, query.title@, query.year_or_default_spec(), query.page_or_default_spec()));
    url
}

/// The answer carrying what the movie search found.
pub fn movies_found<T>(body: T) -> (r: JsonResponse<T>)
    ensures
        r.status_code == 200,
        r.message@ == "Get movies successfull"@,
        r.body == body,
{
    JsonResponse { status_code: 200, message: String::from_str("Get movies successfull"), body }
}

} // verus!
