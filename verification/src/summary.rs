//! Things that can be summed up in one line.

use vstd::prelude::*;
use vstd::string::StringExecFns;

verus! {

/// Something that can be summed up in one line of text.
pub trait Summary {
    /// The line that sums `self` up.
    spec fn summary(&self) -> Seq<char>;

    /// The line that sums `self` up.
    fn summarize(&self) -> (line: String)
        ensures
            line@ == self.summary(),
    ;
}

/// An article of a newspaper.
pub struct NewsArticle {
    pub headline: String,
    pub location: String,
    pub author: String,
    pub content: String,
}

impl Summary for NewsArticle {
    open spec fn summary(&self) -> Seq<char> {
        self.headline@ + ", "@ + self.author@ + " 著 ("@ + self.location@ + ")"@
    }

    fn summarize(&self) -> (line: String) {
        let mut line = self.headline.clone();
        line.append(", ");
        line.append(self.author.as_str());
        line.append(" 著 (");
        line.append(self.location.as_str());
        line.append(")");
        line
    }
}

/// A short public message.
pub struct Tweet {
    pub username: String,
    pub content: String,
    pub reply: bool,
    pub retweet: bool,
}

impl Summary for Tweet {
    open spec fn summary(&self) -> Seq<char> {
        self.username@ + ": "@ + self.content@
    }

    fn summarize(&self) -> (line: String) {
        let mut line = self.username.clone();
        line.append(": ");
        line.append(self.content.as_str());
        line
    }
}

/// A message as a program would post it, neither a reply nor a repost.
pub fn create_tweet() -> (tweet: Tweet)
    ensures
        tweet.username@ == "bot"@,
        tweet.content@ == "自動生成ツイート"@,
        !tweet.reply,
        !tweet.retweet,
{
    Tweet {
        username: String::from_str("bot"),
        content: String::from_str("自動生成ツイート"),
        reply: false,
        retweet: false,
    }
}

} // verus!
