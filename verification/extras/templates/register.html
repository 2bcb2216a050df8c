{% extends "base" %}
{% block content %}
<div class="flex items-center justify-center min-h-screen">
<div class="w-full max-w-sm mx-4">
<h1 class="text-2xl font-bold mb-6 text-center">Create Account</h1>
<form action="/register" method="post" class="space-y-4">
<div>
<label for="username" class="block text-sm font-medium mb-1">Username</label>
<input type="text" name="username" id="username" required
class="w-full px-3 py-2 border border-border rounded-lg bg-card focus:outline-none focus:ring-2 focus:ring-accent-500">
</div>
<div>
<label for="password" class="block text-sm font-medium mb-1">Password</label>
<input type="password" name="password" id="password" required
class="w-full px-3 py-2 border border-border rounded-lg bg-card focus:outline-none focus:ring-2 focus:ring-accent-500">
</div>
<div class="space-y-2">
<div class="flex items-center justify-center p-2 bg-card dark:bg-card rounded-lg border border-border">
<img src="{{ captcha_image }}" alt="Captcha" class="h-16 object-contain" />
</div>
<div>
<label for="captcha_answer" class="block text-sm font-medium mb-1">Verify Captcha Code</label>
<input type="text" name="captcha_answer" id="captcha_answer" required placeholder="Enter code above"
class="w-full px-3 py-2 border border-border rounded-lg bg-card focus:outline-none focus:ring-2 focus:ring-accent-500">
</div>
</div>
{% if error %}
<p class="text-red-500 text-sm">{{ error }}</p>
{% endif %}
<button type="submit"
class="w-full py-2 px-4 bg-accent-600 text-white rounded-lg hover:bg-accent-700 focus:outline-none focus:ring-2 focus:ring-accent-500">
Register
</button>
</form>
<p class="text-center text-sm text-muted-fg mt-4">
Already have an account? <a href="/login" class="text-accent-600 hover:underline">Sign in</a>
</p>
</div>
</div>
{% endblock %}