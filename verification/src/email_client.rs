//! What is handed to the mailer.

use vstd::prelude::*;

use crate::domain::SubscriberEmail;
use crate::issue_delivery_worker::Delivery;

verus! {

/// One message, with borrowed parts.
pub struct SendEmailRequest<'a> {
    pub from: &'a str,
    pub to: &'a str,
    pub subject: &'a str,
    pub html_body: &'a str,
    pub text_body: &'a str,
}

impl<'a> SendEmailRequest<'a> {
    /// The request that sends `delivery` in the name of `sender`.
    pub fn new(sender: &'a SubscriberEmail, delivery: &'a Delivery) -> (request: SendEmailRequest<
        'a,
    >)
        ensures
            request.from@ == sender@,
            request.to@ == delivery.recipient@,
            request.subject@ == delivery.subject@,
            request.html_body@ == delivery.html@,
            request.text_body@ == delivery.text@,
    {
        SendEmailRequest {
            from: sender.as_str(),
            to: delivery.recipient.as_str(),
            subject: delivery.subject.as_str(),
            html_body: delivery.html.as_str(),
            text_body: delivery.text.as_str(),
        }
    }
}

} // verus!
